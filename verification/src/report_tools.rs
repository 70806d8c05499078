//! The tool segments of the context report: one per owner of tools, each
//! with a part per tool, counted so that the parts and segments add up to
//! the count of all the tools; and the parts for hint files and for tools
//! described in the prompt.
use crate::context_report::{ContextCategory, ContextPart, ContextSegment, HintScope, HintSource};
use crate::report_messages::{parts_chars, parts_tokens};
use crate::text::{chars_of, decimal, preview, preview_of, str_equal, usize_to_decimal, views_of};
use crate::token_counter::{
    bytes, entries_from, exact_for, lemma_entries_from_mono, lemma_entries_from_same,
    lemma_entries_from_trans, lemma_exact_kept, lemma_exact_subset, lemma_step_entries,
    lemma_step_exact, lemma_union_of_prefix, o200k_encodes, o200k_token_count, sum_tool_tokens,
    tool_encodes, tool_texts, tool_texts_fn, tool_tokens, tools_encode, tools_texts, tools_tokens,
    union_of, TokenCounter, ToolSpec, FUNC_END,
};
use crate::tool_groups::{
    covers, distinct, grouped, lemma_grouped_len, lemma_grouped_step, lemma_grouped_sum,
    lemma_seq_less_total, lemma_seq_less_transitive, lemma_sorted_distinct, lemma_sum_by_concat,
    lemma_sum_by_nonneg, lemma_sum_by_pointwise, lemma_sum_by_push, lemma_sum_grouped,
    lemma_sum_groups_prefix, lemma_sum_tool_budget_le_cost, lemma_sum_tool_tokens_is_sum_by,
    lemma_tool_values_nonneg, lemma_grouped_from, lemma_with_owner_from, lemma_with_owner_prefix_sum,
    lemma_with_owner_step, owner_label,
    seq_less, strictly_sorted, sum_by, sum_groups, tool_cost, tool_cost_fn, tool_tokens_fn,
    with_owner,
};
use vstd::prelude::*;
use vstd::string::*;

verus! {

broadcast use vstd::string::group_string_axioms;

// ---------------------------------------------------------------------
// Tool segments
// ---------------------------------------------------------------------

/// `p` is the part for tool `t`: its name, its definition's characters
/// and preview.
pub open spec fn is_tool_part(p: ContextPart, t: ToolSpec) -> bool {
    &&& p.label@ == t.name@
    &&& p.source is None
    &&& p.char_count == t.definition_json@.len()
    &&& p.content_preview matches Some(pv) && pv@ == preview_of(t.definition_json@)
}

/// `seg` is the segment of the tools `group` of owner `o`: labelled by the
/// owner, with the number of tools as source, a part per tool in order,
/// and the sum of their characters.
pub open spec fn is_tool_segment(seg: ContextSegment, o: Seq<char>, group: Seq<ToolSpec>) -> bool {
    &&& seg.category == ContextCategory::ToolDefinitions
    &&& seg.label@ == o
    &&& seg.source matches Some(src) && src@ == decimal(group.len()) + " tools"@
    &&& seg.content_preview is None
    &&& seg.parts@.len() == group.len()
    &&& forall|q: int| 0 <= q < group.len() ==> is_tool_part(#[trigger] seg.parts@[q], group[q])
    &&& seg.char_count == parts_chars(seg.parts@)
}

/// The labels of a sequence of segments.
pub open spec fn segment_labels(segs: Seq<ContextSegment>) -> Seq<Seq<char>> {
    segs.map_values(|s: ContextSegment| s.label@)
}

/// Tokens of a sequence of segments.
pub open spec fn segments_tokens(segs: Seq<ContextSegment>) -> int
    decreases segs.len(),
{
    if segs.len() == 0 {
        0
    } else {
        segments_tokens(segs.drop_last()) + segs.last().token_count
    }
}

/// The number of parts of a sequence of segments.
pub open spec fn parts_count(segs: Seq<ContextSegment>) -> int
    decreases segs.len(),
{
    if segs.len() == 0 {
        0
    } else {
        parts_count(segs.drop_last()) + segs.last().parts@.len()
    }
}

/// Two sequences of tools agree, tool by tool, in tokens, cost and the
/// texts counted.
pub open spec fn same_tools(a: Seq<ToolSpec>, b: Seq<ToolSpec>) -> bool {
    &&& a.len() == b.len()
    &&& forall|k: int|
        0 <= k < a.len() ==> tool_tokens(#[trigger] a[k]) == tool_tokens(b[k]) && tool_cost(a[k])
            == tool_cost(b[k]) && tool_encodes(a[k]) == tool_encodes(b[k]) && tool_texts(a[k])
            == tool_texts(b[k])
}

/// The owner labels that occur among `ts`.
pub open spec fn has_owner(ts: Seq<ToolSpec>, x: Seq<char>) -> bool {
    exists|k: int| 0 <= k < ts.len() && owner_label(#[trigger] ts[k]) == x
}

proof fn lemma_same_tools_sums(a: Seq<ToolSpec>, b: Seq<ToolSpec>)
    requires
        same_tools(a, b),
    ensures
        tools_tokens(a) == tools_tokens(b),
        sum_by(a, tool_cost_fn()) == sum_by(b, tool_cost_fn()),
{
    lemma_sum_tool_tokens_is_sum_by(a);
    lemma_sum_tool_tokens_is_sum_by(b);
    assert forall|k: int| 0 <= k < a.len() implies (tool_tokens_fn())(#[trigger] a[k]) == (
    tool_tokens_fn())(b[k]) by {}
    lemma_sum_by_pointwise(a, b, tool_tokens_fn());
    assert forall|k: int| 0 <= k < a.len() implies (tool_cost_fn())(#[trigger] a[k]) == (
    tool_cost_fn())(b[k]) by {}
    lemma_sum_by_pointwise(a, b, tool_cost_fn());
}

proof fn lemma_tools_tokens_push(g: Seq<ToolSpec>, t: ToolSpec)
    ensures
        tools_tokens(g.push(t)) == tools_tokens(g) + tool_tokens(t) + if g.len() == 0 {
            FUNC_END as int
        } else {
            0
        },
{
    assert(g.push(t).drop_last() =~= g);
    if g.len() == 0 {
        assert(sum_tool_tokens(g) == 0);
    }
}

proof fn lemma_parts_chars_push(ps: Seq<ContextPart>, p: ContextPart)
    ensures
        parts_chars(ps.push(p)) == parts_chars(ps) + p.char_count,
        parts_tokens(ps.push(p)) == parts_tokens(ps) + p.token_count,
{
    assert(ps.push(p).drop_last() =~= ps);
}

pub proof fn lemma_segments_tokens_push(segs: Seq<ContextSegment>, s: ContextSegment)
    ensures
        segments_tokens(segs.push(s)) == segments_tokens(segs) + s.token_count,
{
    assert(segs.push(s).drop_last() =~= segs);
}

/// A tool's group label: its owner, or `ungrouped`.
fn owner_label_of(t: &ToolSpec) -> (r: String)
    ensures
        r@ == owner_label(*t),
{
    match &t.owner {
        Some(o) => o.clone(),
        None => String::from_str("ungrouped"),
    }
}

/// Whether `a` orders before `b`.
pub fn str_less(a: &str, b: &str) -> (r: bool)
    ensures
        r == seq_less(a@, b@),
{
    let x = chars_of(a);
    let y = chars_of(b);
    let mut k: usize = 0;
    proof {
        assert(a@.skip(0) =~= a@);
        assert(b@.skip(0) =~= b@);
    }
    while k < x.len() && k < y.len() && x[k] == y[k]
        invariant
            x@ == a@,
            y@ == b@,
            k <= x.len(),
            k <= y.len(),
            seq_less(a@, b@) == seq_less(a@.skip(k as int), b@.skip(k as int)),
        decreases x.len() - k,
    {
        proof {
            assert(a@.skip(k as int).drop_first() =~= a@.skip(k as int + 1));
            assert(b@.skip(k as int).drop_first() =~= b@.skip(k as int + 1));
        }
        k = k + 1;
    }
    if k == x.len() {
        k < y.len()
    } else if k == y.len() {
        false
    } else {
        x[k] < y[k]
    }
}

/// Adds owner `o` to a strictly sorted list of owners, in its place, if
/// it is not there yet.
fn insert_owner(owners: &mut Vec<String>, o: String)
    requires
        strictly_sorted(views_of(old(owners)@)),
    ensures
        strictly_sorted(views_of(final(owners)@)),
        forall|x: Seq<char>|
            views_of(final(owners)@).contains(x) <==> views_of(old(owners)@).contains(x) || x == o@,
{
    let ghost before = views_of(owners@);
    let n = owners.len();
    let mut pos: usize = 0;
    while pos < n && str_less(owners[pos].as_str(), o.as_str())
        invariant
            n == owners@.len(),
            before == views_of(owners@),
            pos <= n,
            forall|k: int| 0 <= k < pos ==> seq_less(#[trigger] before[k], o@),
        decreases n - pos,
    {
        pos = pos + 1;
    }
    if pos < n && str_equal(owners[pos].as_str(), o.as_str()) {
        proof {
            assert(before[pos as int] == o@);
            assert forall|x: Seq<char>|
                views_of(owners@).contains(x) <==> before.contains(x) || x == o@ by {
                if x == o@ {
                    assert(before[pos as int] == x);
                }
            }
        }
        return;
    }
    let ghost ov = o@;
    owners.insert(pos, o);
    proof {
        let after = views_of(owners@);
        assert(after =~= before.take(pos as int).push(ov) + before.skip(pos as int));
        if pos < n {
            lemma_seq_less_total(before[pos as int], ov);
        }
        assert forall|i: int, j: int| 0 <= i < j < after.len() implies seq_less(
            after[i],
            after[j],
        ) by {
            if j < pos {
            } else if j == pos {
            } else if i < pos {
                assert(after[j] == before[j - 1]);
                if i < pos {
                    assert(seq_less(before[i], ov));
                    lemma_seq_less_transitive(before[i], ov, before[pos as int]);
                    if j - 1 > pos {
                        lemma_seq_less_transitive(before[i], before[pos as int], before[j - 1]);
                    }
                }
            } else if i == pos {
                if j - 1 > pos {
                    lemma_seq_less_transitive(ov, before[pos as int], before[j - 1]);
                }
            } else {
                assert(after[i] == before[i - 1]);
                assert(after[j] == before[j - 1]);
            }
        }
        assert forall|x: Seq<char>| after.contains(x) <==> before.contains(x) || x == ov by {
            if after.contains(x) {
                let i = choose|i: int| 0 <= i < after.len() && after[i] == x;
                if i < pos {
                    assert(before[i] == x);
                } else if i > pos {
                    assert(before[i - 1] == x);
                }
            }
            if before.contains(x) {
                let i = choose|i: int| 0 <= i < before.len() && before[i] == x;
                if i < pos {
                    assert(after[i] == x);
                } else {
                    assert(after[i + 1] == x);
                }
            }
            if x == ov {
                assert(after[pos as int] == x);
            }
        }
    }
}

/// The owner labels of `tools`, each once, in string order.
fn collect_owners(tools: &[ToolSpec]) -> (owners: Vec<String>)
    ensures
        strictly_sorted(views_of(owners@)),
        forall|x: Seq<char>| views_of(owners@).contains(x) <==> has_owner(tools@, x),
{
    let mut owners: Vec<String> = Vec::new();
    let mut i: usize = 0;
    while i < tools.len()
        invariant
            i <= tools.len(),
            strictly_sorted(views_of(owners@)),
            forall|x: Seq<char>| views_of(owners@).contains(x) <==> has_owner(tools@.take(i as int), x),
        decreases tools.len() - i,
    {
        let label = owner_label_of(&tools[i]);
        let ghost prev = views_of(owners@);
        let ghost lv = label@;
        insert_owner(&mut owners, label);
        proof {
            assert(forall|x: Seq<char>|
                views_of(owners@).contains(x) <==> prev.contains(x) || x == lv);
            assert(forall|x: Seq<char>| prev.contains(x) <==> has_owner(tools@.take(i as int), x));
            assert forall|x: Seq<char>| has_owner(tools@.take(i as int + 1), x) <==> has_owner(
                tools@.take(i as int),
                x,
            ) || x == owner_label(tools@[i as int]) by {
                if has_owner(tools@.take(i as int + 1), x) {
                    let k = choose|k: int|
                        0 <= k < i + 1 && owner_label(#[trigger] tools@.take(i as int + 1)[k]) == x;
                    if k < i {
                        assert(tools@.take(i as int)[k] == tools@.take(i as int + 1)[k]);
                    }
                }
                if has_owner(tools@.take(i as int), x) {
                    let k = choose|k: int|
                        0 <= k < i && owner_label(#[trigger] tools@.take(i as int)[k]) == x;
                    assert(tools@.take(i as int + 1)[k] == tools@.take(i as int)[k]);
                }
                if x == owner_label(tools@[i as int]) {
                    assert(tools@.take(i as int + 1)[i as int] == tools@[i as int]);
                }
            }
            assert forall|x: Seq<char>| views_of(owners@).contains(x) <==> has_owner(
                tools@.take(i as int + 1),
                x,
            ) by {
                assert(views_of(owners@).contains(x) <==> prev.contains(x) || x == lv);
                assert(prev.contains(x) <==> has_owner(tools@.take(i as int), x));
                assert(has_owner(tools@.take(i as int + 1), x) <==> has_owner(
                    tools@.take(i as int),
                    x,
                ) || x == owner_label(tools@[i as int]));
            }
        }
        i = i + 1;
    }
    proof {
        assert(tools@.take(tools.len() as int) =~= tools@);
    }
    owners
}

/// The segment of the tools of one owner. Each tool joins the cumulative
/// list, which is counted again; the tool's part takes the growth of the
/// count, and the segment the growth over the whole group. A count that
/// shrinks (possible only when cached counts collide) is taken as none.
fn group_segment(
    tools: &[ToolSpec],
    owner: &String,
    cumulative: &mut Vec<ToolSpec>,
    cumulative_tokens: &mut usize,
    token_counter: &mut TokenCounter,
    Ghost(prior): Ghost<Seq<ToolSpec>>,
    Ghost(e0): Ghost<Seq<((usize, Seq<u8>), usize)>>,
    Ghost(exact): Ghost<bool>,
) -> (r: Option<ContextSegment>)
    requires
        old(token_counter).wf(),
        same_tools(old(cumulative)@, prior),
        exact == exact_for(e0, tools_texts(tools@)),
        entries_from(old(token_counter).entries(), e0, tools_texts(tools@)),
        tools_texts(old(cumulative)@).subset_of(tools_texts(tools@)),
        exact ==> *old(cumulative_tokens) == tools_tokens(prior),
        sum_by(prior, tool_cost_fn()) + sum_by(with_owner(tools@, owner@), tool_cost_fn()) + FUNC_END
            <= usize::MAX,
    ensures
        final(token_counter).wf(),
        tools_encode(prior) && tools_encode(tools@) ==> r is Some,
        r matches Some(seg) ==> {
            &&& same_tools(final(cumulative)@, prior + with_owner(tools@, owner@))
            &&& entries_from(final(token_counter).entries(), e0, tools_texts(tools@))
            &&& tools_texts(final(cumulative)@).subset_of(tools_texts(tools@))
            &&& exact ==> *final(cumulative_tokens) == tools_tokens(
                prior + with_owner(tools@, owner@),
            )
            &&& is_tool_segment(seg, owner@, with_owner(tools@, owner@))
            &&& exact ==> seg.token_count == parts_tokens(seg.parts@)
            &&& exact ==> seg.token_count == tools_tokens(
                prior + with_owner(tools@, owner@),
            ) - tools_tokens(prior)
            &&& exact ==> forall|q: int|
                0 <= q < seg.parts@.len() ==> (#[trigger] seg.parts@[q]).token_count == tool_tokens(
                    with_owner(tools@, owner@)[q],
                ) + if prior.len() + q == 0 {
                    FUNC_END as int
                } else {
                    0
                }
        },
{
    let ghost o = owner@;
    let ghost ts = tools@;
    let group_start = *cumulative_tokens;
    let mut parts: Vec<ContextPart> = Vec::new();
    let mut chars_sum: u64 = 0;
    proof {
        lemma_tool_values_nonneg();
        lemma_sum_by_nonneg(with_owner(ts, o), tool_cost_fn());
        lemma_sum_by_nonneg(prior, tool_cost_fn());
        assert(ts.take(0) =~= Seq::<ToolSpec>::empty());
        assert(prior + with_owner(ts.take(0), o) =~= prior);
    }
    let mut i: usize = 0;
    while i < tools.len()
        invariant
            ts == tools@,
            o == owner@,
            i <= tools.len(),
            token_counter.wf(),
            sum_by(prior, tool_cost_fn()) + sum_by(with_owner(ts, o), tool_cost_fn()) + FUNC_END
                <= usize::MAX,
            forall|t: ToolSpec| #[trigger] (tool_tokens_fn())(t) >= 0,
            forall|t: ToolSpec| #[trigger] (tool_cost_fn())(t) >= 0,
            sum_by(prior, tool_cost_fn()) >= 0,
            same_tools(cumulative@, prior + with_owner(ts.take(i as int), o)),
            exact == exact_for(e0, tools_texts(ts)),
            entries_from(token_counter.entries(), e0, tools_texts(ts)),
            tools_texts(cumulative@).subset_of(tools_texts(ts)),
            exact ==> group_start == tools_tokens(prior),
            exact ==> *cumulative_tokens == tools_tokens(
                prior + with_owner(ts.take(i as int), o),
            ),
            parts@.len() == with_owner(ts.take(i as int), o).len(),
            forall|q: int|
                0 <= q < parts@.len() ==> is_tool_part(
                    #[trigger] parts@[q],
                    with_owner(ts.take(i as int), o)[q],
                ),
            exact ==> forall|q: int|
                0 <= q < parts@.len() ==> (#[trigger] parts@[q]).token_count == tool_tokens(
                    with_owner(ts.take(i as int), o)[q],
                ) + if prior.len() + q == 0 {
                    FUNC_END as int
                } else {
                    0
                },
            exact ==> parts_tokens(parts@) == *cumulative_tokens - group_start,
            exact ==> *cumulative_tokens >= group_start,
            chars_sum == parts_chars(parts@),
            chars_sum <= sum_by(with_owner(ts.take(i as int), o), tool_cost_fn()),
        decreases tools.len() - i,
    {
        let ghost wo = with_owner(ts.take(i as int), o);
        let ghost g = prior + wo;
        proof {
            lemma_with_owner_step(ts, i as int, o);
        }
        let label = owner_label_of(&tools[i]);
        if str_equal(label.as_str(), owner.as_str()) {
            let tool = &tools[i];
            let ghost t = ts[i as int];
            let ghost wo2 = wo.push(t);
            let ghost g2 = prior + wo2;
            let before = *cumulative_tokens;
            let copy = tool.clone();
            let ghost cum_before = cumulative@;
            cumulative.push(copy);
            proof {
                lemma_union_of_prefix(ts, tool_texts_fn(), i as int);
                assert(cumulative@.drop_last() =~= cum_before);
                assert(tools_texts(cumulative@) == tools_texts(cum_before).union(tool_texts(copy)));
                assert(tools_texts(cumulative@).subset_of(tools_texts(ts)));
                assert(g2 =~= g.push(t));
                assert(same_tools(cumulative@, g2)) by {
                    assert forall|k: int| 0 <= k < cumulative@.len() implies tool_tokens(
                        #[trigger] cumulative@[k],
                    ) == tool_tokens(g2[k]) && tool_cost(cumulative@[k]) == tool_cost(g2[k])
                        && tool_encodes(cumulative@[k]) == tool_encodes(g2[k]) && tool_texts(
                        cumulative@[k],
                    ) == tool_texts(g2[k]) by {
                        if k < g.len() {
                            assert(cumulative@[k] == cum_before[k]);
                            assert(g2[k] == g[k]);
                        }
                    }
                }
                lemma_same_tools_sums(cumulative@, g2);
                lemma_sum_tool_budget_le_cost(cumulative@);
                lemma_sum_by_concat(prior, wo2, tool_cost_fn());
                lemma_with_owner_prefix_sum(ts, i as int + 1, o, tool_cost_fn());
                lemma_sum_by_push(wo, t, tool_cost_fn());
                lemma_tools_tokens_push(g, t);
                assert((tool_tokens_fn())(t) >= 0);
            }
            let ghost cur = token_counter.entries();
            proof {
                if exact {
                    lemma_exact_kept(e0, cur, tools_texts(ts), tools_texts(ts), tools_texts(cumulative@));
                }
            }
            let counted = match token_counter.count_tokens_for_tools(cumulative.as_slice()) {
                Some(c) => c,
                None => {
                    proof {
                        if tools_encode(prior) && tools_encode(ts) {
                            assert(wo2 == with_owner(ts.take(i as int + 1), o));
                            lemma_with_owner_from(ts.take(i as int + 1), o);
                            assert forall|k: int| 0 <= k < cumulative@.len() implies tool_encodes(
                                #[trigger] cumulative@[k],
                            ) by {
                                assert(tool_encodes(cumulative@[k]) == tool_encodes(g2[k]));
                                if k < prior.len() {
                                    assert(g2[k] == prior[k]);
                                } else {
                                    assert(g2[k] == wo2[k - prior.len()]);
                                    let tk = ts.take(i as int + 1);
                                    let x = wo2[k - prior.len()];
                                    assert(exists|j: int| 0 <= j < tk.len() && tk[j] == x);
                                    let j = choose|j: int| 0 <= j < tk.len() && #[trigger] tk[j] == x;
                                    assert(tk[j] == ts[j]);
                                }
                            }
                        }
                    }
                    return None;
                },
            };
            proof {
                lemma_entries_from_mono(token_counter.entries(), cur, tools_texts(cumulative@), tools_texts(ts));
                lemma_entries_from_trans(e0, cur, token_counter.entries(), tools_texts(ts), tools_texts(ts));
                assert(tools_texts(ts).union(tools_texts(ts)) =~= tools_texts(ts));
            }
            *cumulative_tokens = counted;
            let diff = if counted >= before {
                counted - before
            } else {
                0
            };
            let content = &tool.definition_json;
            let chars = content.as_str().unicode_len();
            let part = ContextPart {
                label: tool.name.clone(),
                source: None,
                token_count: diff as u64,
                char_count: chars as u64,
                content_preview: Some(preview(content.as_str())),
            };
            proof {
                lemma_parts_chars_push(parts@, part);
                crate::token_counter::lemma_properties_nonneg(t);
                assert(chars as int <= tool_cost(t));
                assert(sum_by(wo2, tool_cost_fn()) == sum_by(wo, tool_cost_fn()) + tool_cost(t));
                assert(with_owner(ts.take(i as int + 1), o) == wo2);
                assert(sum_by(wo2, tool_cost_fn()) <= sum_by(with_owner(ts, o), tool_cost_fn()));
            }
            parts.push(part);
            chars_sum = chars_sum + chars as u64;
            proof {
                assert forall|q: int| 0 <= q < parts@.len() implies is_tool_part(
                    #[trigger] parts@[q],
                    wo2[q],
                ) by {
                    if q < wo.len() {
                        assert(wo2[q] == wo[q]);
                    }
                }
            }
        }
        i = i + 1;
    }
    proof {
        assert(ts.take(tools.len() as int) =~= ts);
    }
    let end = *cumulative_tokens;
    let seg_tokens = if end >= group_start {
        end - group_start
    } else {
        0
    };
    let count = usize_to_decimal(parts.len());
    let mut source = count;
    source.append(" tools");
    Some(
        ContextSegment {
            category: ContextCategory::ToolDefinitions,
            token_count: seg_tokens as u64,
            char_count: chars_sum,
            label: owner.clone(),
            source: Some(source),
            content_preview: None,
            parts,
        },
    )
}

/// `r` are the tool segments of `tools`: one per owner, in string order
/// of the owners, each described by `is_tool_segment`; when the counts
/// were `exact`, the parts sum to their segment and the segments to the
/// tools' count; every tool has exactly one part.
pub open spec fn tool_segments_ok(r: Seq<ContextSegment>, tools: Seq<ToolSpec>, exact: bool) -> bool {
    &&& strictly_sorted(segment_labels(r))
    &&& forall|x: Seq<char>| segment_labels(r).contains(x) <==> has_owner(tools, x)
    &&& forall|j: int|
        0 <= j < r.len() ==> is_tool_segment(#[trigger] r[j], r[j].label@, with_owner(tools, r[j].label@))
    &&& exact ==> forall|j: int|
        0 <= j < r.len() ==> (#[trigger] r[j]).token_count == parts_tokens(r[j].parts@)
    &&& exact ==> forall|j: int, q: int|
        0 <= j < r.len() && 0 <= q < r[j].parts@.len() ==> (#[trigger] r[j].parts@[q]).token_count
            == tool_part_tokens(tools, segment_labels(r), j, q)
    &&& exact ==> segments_tokens(r) == tools_tokens(tools)
    &&& parts_count(r) == tools.len()
}

/// Part `q` of segment `j` takes the tokens of its tool, and the very
/// first part also the closing of the tool list.
pub open spec fn tool_part_tokens(
    tools: Seq<ToolSpec>,
    labels: Seq<Seq<char>>,
    j: int,
    q: int,
) -> int {
    tool_tokens(with_owner(tools, labels[j])[q]) + if grouped(tools, labels.take(j)).len() + q
        == 0 {
        FUNC_END as int
    } else {
        0
    }
}

/// The tool segments: one per owner (the tool's extension, or
/// `ungrouped`), in string order of the owners, each listing its tools in
/// their order. Tools are counted cumulatively, group after group: each
/// part takes what its tool adds to the count of the tools before it, and
/// each segment what its group adds, so that the parts of a segment sum
/// to the segment and the segments sum to the count of all the tools.
pub fn tool_segments(tools: &[ToolSpec], token_counter: &mut TokenCounter) -> (r: Option<
    Vec<ContextSegment>,
>)
    requires
        old(token_counter).wf(),
        sum_by(tools@, tool_cost_fn()) + FUNC_END <= usize::MAX,
    ensures
        final(token_counter).wf(),
        tools_encode(tools@) ==> r is Some,
        r matches Some(v) ==> tool_segments_ok(
            v@,
            tools@,
            exact_for(old(token_counter).entries(), tools_texts(tools@)),
        ),
        r is Some ==> entries_from(
            final(token_counter).entries(),
            old(token_counter).entries(),
            tools_texts(tools@),
        ),
{
    let ghost e0 = token_counter.entries();
    let ghost exact = exact_for(e0, tools_texts(tools@));
    proof {
        lemma_entries_from_same(e0, tools_texts(tools@));
        assert(tools_texts(Seq::<ToolSpec>::empty()) =~= Set::<Seq<char>>::empty());
    }
    let owners = collect_owners(tools);
    let ghost labels = views_of(owners@);
    let ghost ts = tools@;
    proof {
        lemma_sorted_distinct(labels);
        assert(covers(labels, ts)) by {
            assert forall|k: int| 0 <= k < ts.len() implies labels.contains(
                owner_label(#[trigger] ts[k]),
            ) by {
                assert(has_owner(ts, owner_label(ts[k])));
            }
        }
        lemma_tool_values_nonneg();
        lemma_sum_grouped(ts, labels, tool_cost_fn());
        lemma_grouped_sum(ts, labels, tool_cost_fn());
        assert(labels.take(0) =~= Seq::<Seq<char>>::empty());
    }
    let mut cumulative: Vec<ToolSpec> = Vec::new();
    let mut cumulative_tokens: usize = 0;
    let mut segments: Vec<ContextSegment> = Vec::new();
    let mut j: usize = 0;
    while j < owners.len()
        invariant
            token_counter.wf(),
            ts == tools@,
            labels == views_of(owners@),
            distinct(labels),
            covers(labels, ts),
            forall|t: ToolSpec| #[trigger] (tool_cost_fn())(t) >= 0,
            sum_groups(ts, labels, tool_cost_fn()) == sum_by(ts, tool_cost_fn()),
            sum_by(ts, tool_cost_fn()) + FUNC_END <= usize::MAX,
            j <= owners.len(),
            segments@.len() == j,
            segment_labels(segments@) == labels.take(j as int),
            same_tools(cumulative@, grouped(ts, labels.take(j as int))),
            exact == exact_for(e0, tools_texts(ts)),
            entries_from(token_counter.entries(), e0, tools_texts(ts)),
            tools_texts(cumulative@).subset_of(tools_texts(ts)),
            exact ==> cumulative_tokens == tools_tokens(
                grouped(ts, labels.take(j as int)),
            ),
            forall|k: int|
                0 <= k < j ==> is_tool_segment(
                    #[trigger] segments@[k],
                    labels[k],
                    with_owner(ts, labels[k]),
                ),
            exact ==> forall|k: int|
                0 <= k < j ==> (#[trigger] segments@[k]).token_count == parts_tokens(
                    segments@[k].parts@,
                ),
            exact ==> forall|k: int, q: int|
                0 <= k < j && 0 <= q < segments@[k].parts@.len() ==> (
                #[trigger] segments@[k].parts@[q]).token_count == tool_part_tokens(ts, labels, k, q),
            exact ==> segments_tokens(segments@) == tools_tokens(
                grouped(ts, labels.take(j as int)),
            ),
            parts_count(segments@) == grouped(ts, labels.take(j as int)).len(),
        decreases owners.len() - j,
    {
        let ghost prior = grouped(ts, labels.take(j as int));
        proof {
            lemma_grouped_step(ts, labels, j as int);
            lemma_sum_grouped(ts, labels.take(j as int + 1), tool_cost_fn());
            lemma_sum_groups_prefix(ts, labels, j as int + 1, tool_cost_fn());
            lemma_sum_by_concat(prior, with_owner(ts, labels[j as int]), tool_cost_fn());
        }
        let seg = match group_segment(
            tools,
            &owners[j],
            &mut cumulative,
            &mut cumulative_tokens,
            token_counter,
            Ghost(prior),
            Ghost(e0),
            Ghost(exact),
        ) {
            Some(seg) => seg,
            None => {
                proof {
                    if tools_encode(ts) {
                        lemma_grouped_from(ts, labels.take(j as int));
                        assert forall|k: int| 0 <= k < prior.len() implies tool_encodes(
                            #[trigger] prior[k],
                        ) by {
                            let jj = choose|jj: int| 0 <= jj < ts.len() && ts[jj] == prior[k];
                        }
                    }
                }
                return None;
            },
        };
        let ghost segs_before = segments@;
        proof {
            lemma_segments_tokens_push(segs_before, seg);
            assert(segs_before.push(seg).drop_last() =~= segs_before);
            assert(labels.take(j as int + 1).take(j as int) =~= labels.take(j as int));
        }
        segments.push(seg);
        proof {
            assert(segment_labels(segments@) =~= labels.take(j as int + 1)) by {
                assert forall|k: int| 0 <= k < j + 1 implies #[trigger] segment_labels(segments@)[k]
                    == labels.take(j as int + 1)[k] by {
                    if k < j {
                        assert(segments@[k] == segs_before[k]);
                        assert(segment_labels(segs_before)[k] == labels.take(j as int)[k]);
                    }
                }
            }
            assert forall|k: int| 0 <= k < j + 1 implies is_tool_segment(
                #[trigger] segments@[k],
                labels[k],
                with_owner(ts, labels[k]),
            ) by {
                if k < j {
                    assert(segments@[k] == segs_before[k]);
                }
            }
            if exact {
                assert forall|k: int| 0 <= k < j + 1 implies (
                #[trigger] segments@[k]).token_count == parts_tokens(segments@[k].parts@) by {
                    if k < j {
                        assert(segments@[k] == segs_before[k]);
                    }
                }
                assert forall|k: int, q: int|
                    0 <= k < j + 1 && 0 <= q < segments@[k].parts@.len() implies (
                    #[trigger] segments@[k].parts@[q]).token_count == tool_part_tokens(
                    ts,
                    labels,
                    k,
                    q,
                ) by {
                    if k < j {
                        assert(segments@[k] == segs_before[k]);
                    } else {
                        assert(seg.parts@[q].token_count == tool_tokens(
                            with_owner(ts, labels[k])[q],
                        ) + if prior.len() + q == 0 {
                            FUNC_END as int
                        } else {
                            0
                        });
                    }
                }
            }
        }
        j = j + 1;
    }
    proof {
        assert(labels.take(owners.len() as int) =~= labels);
        assert(segment_labels(segments@) == labels);
        lemma_grouped_len(ts, labels);
        lemma_sum_tool_tokens_is_sum_by(ts);
        lemma_sum_tool_tokens_is_sum_by(grouped(ts, labels));
        lemma_grouped_sum(ts, labels, tool_tokens_fn());
        assert(tools_tokens(grouped(ts, labels)) == tools_tokens(ts));
        assert forall|jj: int| 0 <= jj < segments@.len() implies is_tool_segment(
            #[trigger] segments@[jj],
            segments@[jj].label@,
            with_owner(ts, segments@[jj].label@),
        ) by {
            assert(segment_labels(segments@)[jj] == segments@[jj].label@);
        }
        assert(tool_segments_ok(segments@, ts, exact));
    }
    Some(segments)
}

// ---------------------------------------------------------------------
// Hint and toolshim parts
// ---------------------------------------------------------------------

/// How a hint's scope is named in its part's label.
pub open spec fn scope_name(s: HintScope) -> Seq<char> {
    match s {
        HintScope::Global => "global"@,
        HintScope::Project => "project"@,
    }
}

/// `p` is the part for hint file `h`: its scope, its path, and its
/// content's tokens (exactly so when the cache was `exact`), characters
/// and preview.
pub open spec fn is_hint_part(p: ContextPart, h: HintSource, exact: bool) -> bool {
    &&& p.label@ == scope_name(h.scope)
    &&& p.source matches Some(src) && src@ == h.path@
    &&& p.char_count == h.content@.len()
    &&& p.content_preview matches Some(pv) && pv@ == preview_of(h.content@)
    &&& p.token_count <= bytes(h.content@)
    &&& exact ==> p.token_count == o200k_token_count(h.content@)
}

/// The text counted for a hint file.
pub open spec fn hint_texts_fn() -> spec_fn(HintSource) -> Set<Seq<char>> {
    |h: HintSource| set![h.content@]
}

/// The texts counted for hint files.
pub open spec fn hints_texts(sources: Seq<HintSource>) -> Set<Seq<char>> {
    union_of(sources, hint_texts_fn())
}

/// Every hint file's content can be encoded.
pub open spec fn hints_encode(sources: Seq<HintSource>) -> bool {
    forall|k: int| 0 <= k < sources.len() ==> o200k_encodes(#[trigger] sources[k].content@)
}

/// One part per hint file, in order; nothing when a content cannot be
/// counted.
pub fn hint_parts(sources: &[HintSource], token_counter: &mut TokenCounter) -> (r: Option<
    Vec<ContextPart>,
>)
    requires
        old(token_counter).wf(),
    ensures
        final(token_counter).wf(),
        hints_encode(sources@) ==> r is Some,
        r matches Some(v) ==> {
            &&& v@.len() == sources@.len()
            &&& forall|k: int|
                0 <= k < v@.len() ==> is_hint_part(
                    #[trigger] v@[k],
                    sources@[k],
                    exact_for(old(token_counter).entries(), hints_texts(sources@)),
                )
        },
        r is Some ==> entries_from(
            final(token_counter).entries(),
            old(token_counter).entries(),
            hints_texts(sources@),
        ),
{
    let ghost e0 = token_counter.entries();
    let ghost f = hint_texts_fn();
    let ghost all = Set::<Seq<char>>::empty().union(union_of(sources@, f));
    let ghost exact = exact_for(e0, hints_texts(sources@));
    proof {
        assert(all =~= hints_texts(sources@));
        lemma_entries_from_same(e0, Set::empty());
        assert(Set::<Seq<char>>::empty().union(union_of(sources@.take(0), f)) =~= Set::empty());
    }
    let mut parts: Vec<ContextPart> = Vec::new();
    let mut i: usize = 0;
    while i < sources.len()
        invariant
            token_counter.wf(),
            i <= sources.len(),
            parts@.len() == i,
            f == hint_texts_fn(),
            all == Set::<Seq<char>>::empty().union(union_of(sources@, f)),
            exact == exact_for(e0, all),
            forall|k: int| 0 <= k < i ==> is_hint_part(#[trigger] parts@[k], sources@[k], exact),
            entries_from(token_counter.entries(), e0, Set::<Seq<char>>::empty().union(union_of(sources@.take(i as int), f))),
        decreases sources.len() - i,
    {
        let source = &sources[i];
        let label = match source.scope {
            HintScope::Global => String::from_str("global"),
            HintScope::Project => String::from_str("project"),
        };
        let content = source.content.as_str();
        let ghost cur = token_counter.entries();
        proof {
            if exact {
                lemma_step_exact(e0, cur, Set::empty(), sources@, f, i as int);
            }
        }
        let tokens = match token_counter.count_tokens(content) {
            Some(n) => n,
            None => {
                proof {
                    if hints_encode(sources@) {
                        assert(o200k_encodes(sources@[i as int].content@));
                    }
                }
                return None;
            },
        };
        proof {
            lemma_step_entries(e0, cur, token_counter.entries(), Set::empty(), sources@, f, i as int);
        }
        let chars = content.unicode_len();
        parts.push(
            ContextPart {
                label,
                source: Some(source.path.clone()),
                token_count: tokens as u64,
                char_count: chars as u64,
                content_preview: Some(preview(content)),
            },
        );
        i = i + 1;
    }
    proof {
        assert(sources@.take(sources.len() as int) =~= sources@);
    }
    Some(parts)
}

/// `p` is the toolshim part for tool `t`: its name, and the tokens,
/// characters and preview of its definition.
pub open spec fn is_toolshim_part(p: ContextPart, t: ToolSpec, exact: bool) -> bool {
    &&& is_tool_part(p, t)
    &&& p.token_count <= bytes(t.definition_json@)
    &&& exact ==> p.token_count == o200k_token_count(t.definition_json@)
}

/// The text counted for a tool in a toolshim segment: its definition.
pub open spec fn definition_texts_fn() -> spec_fn(ToolSpec) -> Set<Seq<char>> {
    |t: ToolSpec| set![t.definition_json@]
}

/// The texts counted for a toolshim segment: the tools' definitions and
/// the appendix.
pub open spec fn toolshim_texts(tools: Seq<ToolSpec>, appendix: Seq<char>) -> Set<Seq<char>> {
    union_of(tools, definition_texts_fn()).union(set![appendix])
}

/// The tool definitions, and the appendix that describes them, can be
/// encoded.
pub open spec fn toolshim_encodes(tools: Seq<ToolSpec>, appendix: Seq<char>) -> bool {
    &&& o200k_encodes(appendix)
    &&& forall|k: int| 0 <= k < tools.len() ==> o200k_encodes(#[trigger] tools[k].definition_json@)
}

/// `seg` is the toolshim segment of `tools` with `appendix`: the appendix
/// counted whole, and a part per tool definition.
pub open spec fn toolshim_segment_ok(
    seg: ContextSegment,
    tools: Seq<ToolSpec>,
    appendix: Seq<char>,
    exact: bool,
) -> bool {
    &&& seg.category == ContextCategory::ToolDefinitions
    &&& seg.label@ == "Toolshim tool instructions"@
    &&& seg.source matches Some(src) && src@ == decimal(tools.len()) + " tools"@
    &&& seg.char_count == appendix.len()
    &&& seg.content_preview matches Some(pv) && pv@ == preview_of(appendix)
    &&& seg.token_count <= bytes(appendix)
    &&& exact ==> seg.token_count == o200k_token_count(appendix)
    &&& seg.parts@.len() == tools.len()
    &&& forall|k: int|
        0 <= k < seg.parts@.len() ==> is_toolshim_part(#[trigger] seg.parts@[k], tools[k], exact)
}

/// The one tool segment of a model that reads tools from the system
/// prompt: the prompt appendix that describes `tools` is what is counted,
/// and each tool's definition is a part of its own. Nothing when a text
/// cannot be counted.
pub fn toolshim_tool_segment(tools: &[ToolSpec], appendix: &str, token_counter: &mut TokenCounter) -> (r:
    Option<ContextSegment>)
    requires
        old(token_counter).wf(),
    ensures
        final(token_counter).wf(),
        toolshim_encodes(tools@, appendix@) ==> r is Some,
        r matches Some(seg) ==> toolshim_segment_ok(
            seg,
            tools@,
            appendix@,
            exact_for(old(token_counter).entries(), toolshim_texts(tools@, appendix@)),
        ),
        r is Some ==> entries_from(
            final(token_counter).entries(),
            old(token_counter).entries(),
            toolshim_texts(tools@, appendix@),
        ),
{
    let ghost e0 = token_counter.entries();
    let ghost f = definition_texts_fn();
    let ghost all = toolshim_texts(tools@, appendix@);
    let ghost exact = exact_for(e0, all);
    let ghost defs = Set::<Seq<char>>::empty().union(union_of(tools@, f));
    proof {
        assert(defs =~= union_of(tools@, f));
        lemma_entries_from_same(e0, Set::empty());
        assert(Set::<Seq<char>>::empty().union(union_of(tools@.take(0), f)) =~= Set::empty());
        if exact {
            lemma_exact_subset(e0, all, defs);
        }
    }
    let mut parts: Vec<ContextPart> = Vec::new();
    let mut i: usize = 0;
    while i < tools.len()
        invariant
            token_counter.wf(),
            i <= tools.len(),
            parts@.len() == i,
            f == definition_texts_fn(),
            defs == Set::<Seq<char>>::empty().union(union_of(tools@, f)),
            exact ==> exact_for(e0, defs),
            forall|k: int| 0 <= k < i ==> is_toolshim_part(#[trigger] parts@[k], tools@[k], exact),
            entries_from(token_counter.entries(), e0, Set::<Seq<char>>::empty().union(union_of(tools@.take(i as int), f))),
        decreases tools.len() - i,
    {
        let tool = &tools[i];
        let content = tool.definition_json.as_str();
        let ghost cur = token_counter.entries();
        proof {
            if exact {
                lemma_step_exact(e0, cur, Set::empty(), tools@, f, i as int);
            }
        }
        let tokens = match token_counter.count_tokens(content) {
            Some(n) => n,
            None => {
                proof {
                    if toolshim_encodes(tools@, appendix@) {
                        assert(o200k_encodes(tools@[i as int].definition_json@));
                    }
                }
                return None;
            },
        };
        proof {
            lemma_step_entries(e0, cur, token_counter.entries(), Set::empty(), tools@, f, i as int);
        }
        let chars = content.unicode_len();
        parts.push(
            ContextPart {
                label: tool.name.clone(),
                source: None,
                token_count: tokens as u64,
                char_count: chars as u64,
                content_preview: Some(preview(content)),
            },
        );
        i = i + 1;
    }
    let ghost cur = token_counter.entries();
    proof {
        assert(tools@.take(tools.len() as int) =~= tools@);
        if exact {
            lemma_exact_kept(e0, cur, defs, all, set![appendix@]);
        }
    }
    let tokens = match token_counter.count_tokens(appendix) {
        Some(n) => n,
        None => {
            return None;
        },
    };
    proof {
        lemma_entries_from_trans(e0, cur, token_counter.entries(), defs, set![appendix@]);
    }
    let chars = appendix.unicode_len();
    let mut source = usize_to_decimal(tools.len());
    source.append(" tools");
    Some(
        ContextSegment {
            category: ContextCategory::ToolDefinitions,
            label: String::from_str("Toolshim tool instructions"),
            source: Some(source),
            token_count: tokens as u64,
            char_count: chars as u64,
            content_preview: Some(preview(appendix)),
            parts,
        },
    )
}

} // verus!
