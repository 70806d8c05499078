//! Whether the byte budgets that bound the token counts fit in a `usize`:
//! the counting functions need them to, and a caller checks before it
//! counts.
use crate::message::{message_content_token_text, Message, MessageContent};
use crate::token_counter::{
    bytes, chat_budget, contents_budget, enum_items_budget, lemma_contents_budget_prefix,
    lemma_enum_items_budget_prefix, lemma_messages_budget_prefix, lemma_properties_budget_prefix,
    lemma_sum_tool_budget_prefix, lemma_take_last, message_budget, messages_budget,
    properties_budget, property_budget, property_line_of, sum_tool_budget, tool_budget,
    tool_line_of, ToolProperty, ToolSpec, ENUM_ITEM, FUNC_END, FUNC_INIT, PROP_INIT, PROP_KEY,
    REPLY_PRIMER, TOKENS_PER_MESSAGE,
};
use crate::tool_groups::{lemma_tool_values_nonneg, sum_by, tool_cost, tool_cost_fn};
use vstd::prelude::*;
use vstd::string::*;

verus! {

broadcast use vstd::string::group_string_axioms;

/// A budget as computed: the value when it fits in a `usize`, else none.
pub open spec fn fits(r: Option<usize>, budget: int) -> bool {
    match r {
        Some(n) => n == budget,
        None => budget > usize::MAX,
    }
}

/// Byte length of a text.
fn bytes_of(s: &str) -> (r: usize)
    ensures
        r == bytes(s@),
{
    s.as_bytes().len()
}

/// The byte budget of the string values of an `enum`.
pub fn enum_items_budget_of(items: &Vec<Option<String>>) -> (r: Option<usize>)
    ensures
        fits(r, enum_items_budget(items@)),
{
    let mut total: usize = 0;
    let mut i: usize = 0;
    while i < items.len()
        invariant
            i <= items.len(),
            total == enum_items_budget(items@.take(i as int)),
        decreases items.len() - i,
    {
        proof {
            lemma_take_last(items@, i as int);
            lemma_enum_items_budget_prefix(items@, i as int + 1);
        }
        match &items[i] {
            Some(item) => {
                let b = bytes_of(item.as_str());
                match total.checked_add(ENUM_ITEM) {
                    Some(t) => match t.checked_add(b) {
                        Some(t2) => {
                            total = t2;
                        },
                        None => {
                            return None;
                        },
                    },
                    None => {
                        return None;
                    },
                }
            },
            None => {},
        }
        i = i + 1;
    }
    proof {
        assert(items@.take(items.len() as int) =~= items@);
    }
    Some(total)
}

/// The byte budget of one property.
pub fn property_budget_of(p: &ToolProperty) -> (r: Option<usize>)
    ensures
        fits(r, property_budget(*p)),
{
    let line = property_line_of(p);
    let b = bytes_of(line.as_str());
    let base = match b.checked_add(PROP_KEY) {
        Some(x) => x,
        None => {
            proof {
                if p.enum_values is Some {
                    lemma_enum_items_budget_prefix(p.enum_values->0@, 0);
                }
            }
            return None;
        },
    };
    match &p.enum_values {
        Some(items) => {
            proof {
                lemma_enum_items_budget_prefix(items@, 0);
            }
            match enum_items_budget_of(items) {
                Some(e) => base.checked_add(e),
                None => None,
            }
        },
        None => Some(base),
    }
}

/// The byte budget of one tool.
pub fn tool_budget_of(t: &ToolSpec) -> (r: Option<usize>)
    ensures
        fits(r, tool_budget(*t)),
{
    let line = tool_line_of(t);
    let b = bytes_of(line.as_str());
    proof {
        if t.properties is Some {
            lemma_properties_budget_prefix(t.properties->0@, 0);
        }
    }
    let mut total = match b.checked_add(FUNC_INIT + PROP_INIT) {
        Some(x) => x,
        None => {
            return None;
        },
    };
    match &t.properties {
        Some(ps) => {
            let mut i: usize = 0;
            while i < ps.len()
                invariant
                    i <= ps.len(),
                    t.properties == Some(*ps),
                    total == FUNC_INIT + bytes(crate::token_counter::tool_line(*t)) + PROP_INIT
                        + properties_budget(ps@.take(i as int)),
                decreases ps.len() - i,
            {
                proof {
                    lemma_take_last(ps@, i as int);
                    lemma_properties_budget_prefix(ps@, i as int + 1);
                    assert(ps@.take(i as int + 1).drop_last() =~= ps@.take(i as int));
                }
                match property_budget_of(&ps[i]) {
                    Some(pb) => match total.checked_add(pb) {
                        Some(x) => {
                            total = x;
                        },
                        None => {
                            return None;
                        },
                    },
                    None => {
                        proof {
                            lemma_properties_budget_prefix(ps@.take(i as int + 1), i as int);
                        }
                        return None;
                    },
                }
                i = i + 1;
            }
            proof {
                assert(ps@.take(ps.len() as int) =~= ps@);
            }
        },
        None => {},
    }
    Some(total)
}

proof fn lemma_sum_by_prefix(ts: Seq<ToolSpec>, i: int, f: spec_fn(ToolSpec) -> int)
    requires
        0 <= i <= ts.len(),
        forall|t: ToolSpec| #[trigger] f(t) >= 0,
    ensures
        0 <= sum_by(ts.take(i), f) <= sum_by(ts, f),
    decreases ts.len(),
{
    if i == ts.len() {
        assert(ts.take(i) =~= ts);
        crate::tool_groups::lemma_sum_by_nonneg(ts, f);
    } else {
        assert(ts.drop_last().take(i) =~= ts.take(i));
        lemma_sum_by_prefix(ts.drop_last(), i, f);
        assert(f(ts.last()) >= 0);
    }
}

/// Whether the tools' budgets and definitions, with the closing of the
/// list, fit in a `usize`, as grouping tools into report segments needs.
pub fn tools_cost_fits(tools: &[ToolSpec]) -> (r: bool)
    ensures
        r == (sum_by(tools@, tool_cost_fn()) + FUNC_END <= usize::MAX),
{
    proof {
        lemma_tool_values_nonneg();
    }
    let mut total: usize = FUNC_END;
    let mut i: usize = 0;
    while i < tools.len()
        invariant
            i <= tools.len(),
            forall|t: ToolSpec| #[trigger] (tool_cost_fn())(t) >= 0,
            total == sum_by(tools@.take(i as int), tool_cost_fn()) + FUNC_END,
        decreases tools.len() - i,
    {
        proof {
            lemma_take_last(tools@, i as int);
            lemma_sum_by_prefix(tools@, i as int + 1, tool_cost_fn());
            assert((tool_cost_fn())(tools@[i as int]) == tool_cost(tools@[i as int]));
        }
        let chars = tools[i].definition_json.as_str().unicode_len();
        match tool_budget_of(&tools[i]) {
            Some(b) => match total.checked_add(b) {
                Some(x) => match x.checked_add(chars) {
                    Some(y) => {
                        total = y;
                    },
                    None => {
                        return false;
                    },
                },
                None => {
                    proof {
                        crate::token_counter::lemma_properties_nonneg(tools@[i as int]);
                    }
                    return false;
                },
            },
            None => {
                return false;
            },
        }
        i = i + 1;
    }
    proof {
        assert(tools@.take(tools.len() as int) =~= tools@);
    }
    true
}

/// The byte budget of a message's pieces.
pub fn contents_budget_of(cs: &Vec<MessageContent>) -> (r: Option<usize>)
    ensures
        fits(r, contents_budget(cs@)),
{
    let mut total: usize = 0;
    let mut i: usize = 0;
    while i < cs.len()
        invariant
            i <= cs.len(),
            total == contents_budget(cs@.take(i as int)),
        decreases cs.len() - i,
    {
        proof {
            lemma_take_last(cs@, i as int);
            lemma_contents_budget_prefix(cs@, i as int + 1);
        }
        let text = match message_content_token_text(&cs[i]) {
            Some(t) => t,
            None => String::new(),
        };
        let b = bytes_of(text.as_str());
        match total.checked_add(b) {
            Some(x) => {
                total = x;
            },
            None => {
                return None;
            },
        }
        i = i + 1;
    }
    proof {
        assert(cs@.take(cs.len() as int) =~= cs@);
    }
    Some(total)
}

/// Whether the byte budget of a chat request fits in a `usize`, as
/// counting the request needs.
pub fn chat_budget_fits(system_prompt: &str, messages: &[Message], tools: &[ToolSpec]) -> (r: bool)
    ensures
        r == (chat_budget(system_prompt@, messages@, tools@) <= usize::MAX),
{
    proof {
        lemma_messages_budget_prefix(messages@, 0);
        lemma_sum_tool_budget_prefix(tools@, 0);
    }
    let mut total: usize = match bytes_of(system_prompt).checked_add(
        TOKENS_PER_MESSAGE + REPLY_PRIMER + FUNC_END,
    ) {
        Some(x) => x,
        None => {
            return false;
        },
    };
    let mut i: usize = 0;
    while i < messages.len()
        invariant
            i <= messages.len(),
            total == bytes(system_prompt@) + TOKENS_PER_MESSAGE + REPLY_PRIMER + FUNC_END
                + messages_budget(messages@.take(i as int)),
        decreases messages.len() - i,
    {
        proof {
            lemma_take_last(messages@, i as int);
            lemma_messages_budget_prefix(messages@, i as int + 1);
            lemma_contents_budget_prefix(messages@[i as int].content@, 0);
            lemma_sum_tool_budget_prefix(tools@, 0);
            assert(messages@.take(i as int + 1).drop_last() =~= messages@.take(i as int));
        }
        match contents_budget_of(&messages[i].content) {
            Some(b) => match total.checked_add(b) {
                Some(x) => match x.checked_add(TOKENS_PER_MESSAGE) {
                    Some(y) => {
                        total = y;
                    },
                    None => {
                        return false;
                    },
                },
                None => {
                    return false;
                },
            },
            None => {
                proof {
                    lemma_messages_budget_prefix(messages@.take(i as int + 1), i as int);
                }
                return false;
            },
        }
        i = i + 1;
    }
    proof {
        assert(messages@.take(messages.len() as int) =~= messages@);
    }
    let mut j: usize = 0;
    while j < tools.len()
        invariant
            j <= tools.len(),
            total == bytes(system_prompt@) + TOKENS_PER_MESSAGE + REPLY_PRIMER + FUNC_END
                + messages_budget(messages@) + sum_tool_budget(tools@.take(j as int)),
        decreases tools.len() - j,
    {
        proof {
            lemma_sum_tool_budget_prefix(tools@, j as int + 1);
            assert(tools@.take(j as int + 1).drop_last() =~= tools@.take(j as int));
        }
        match tool_budget_of(&tools[j]) {
            Some(b) => match total.checked_add(b) {
                Some(x) => {
                    total = x;
                },
                None => {
                    return false;
                },
            },
            None => {
                proof {
                    lemma_sum_tool_budget_prefix(tools@.take(j as int + 1), j as int);
                    lemma_messages_budget_prefix(messages@, 0);
                }
                return false;
            },
        }
        j = j + 1;
    }
    proof {
        assert(tools@.take(tools.len() as int) =~= tools@);
    }
    true
}

} // verus!
