//! Grouping tool definitions by the extension that owns them, and the
//! fact that regrouping tools does not change what they add up to.
use crate::token_counter::{
    lemma_properties_nonneg, sum_tool_budget, sum_tool_tokens, tool_budget, tool_tokens, ToolSpec,
};
use vstd::prelude::*;

verus! {

// ---------------------------------------------------------------------
// Sums over tools
// ---------------------------------------------------------------------

/// The sum of `f` over the tools of `ts`.
pub open spec fn sum_by(ts: Seq<ToolSpec>, f: spec_fn(ToolSpec) -> int) -> int
    decreases ts.len(),
{
    if ts.len() == 0 {
        0
    } else {
        sum_by(ts.drop_last(), f) + f(ts.last())
    }
}

pub proof fn lemma_sum_by_push(ts: Seq<ToolSpec>, t: ToolSpec, f: spec_fn(ToolSpec) -> int)
    ensures
        sum_by(ts.push(t), f) == sum_by(ts, f) + f(t),
{
    assert(ts.push(t).drop_last() =~= ts);
}

pub proof fn lemma_sum_by_concat(a: Seq<ToolSpec>, b: Seq<ToolSpec>, f: spec_fn(ToolSpec) -> int)
    ensures
        sum_by(a + b, f) == sum_by(a, f) + sum_by(b, f),
    decreases b.len(),
{
    if b.len() == 0 {
        assert(a + b =~= a);
    } else {
        assert((a + b).drop_last() =~= a + b.drop_last());
        lemma_sum_by_concat(a, b.drop_last(), f);
    }
}

pub proof fn lemma_sum_by_pointwise(a: Seq<ToolSpec>, b: Seq<ToolSpec>, f: spec_fn(ToolSpec) -> int)
    requires
        a.len() == b.len(),
        forall|k: int| 0 <= k < a.len() ==> f(#[trigger] a[k]) == f(b[k]),
    ensures
        sum_by(a, f) == sum_by(b, f),
    decreases a.len(),
{
    if a.len() > 0 {
        lemma_sum_by_pointwise(a.drop_last(), b.drop_last(), f);
        assert(f(a[a.len() - 1]) == f(b[a.len() - 1]));
    }
}

pub proof fn lemma_sum_by_nonneg(ts: Seq<ToolSpec>, f: spec_fn(ToolSpec) -> int)
    requires
        forall|t: ToolSpec| #[trigger] f(t) >= 0,
    ensures
        sum_by(ts, f) >= 0,
    decreases ts.len(),
{
    if ts.len() > 0 {
        lemma_sum_by_nonneg(ts.drop_last(), f);
        assert(f(ts.last()) >= 0);
    }
}

/// The tokens of each tool, as a function.
pub open spec fn tool_tokens_fn() -> spec_fn(ToolSpec) -> int {
    |t: ToolSpec| tool_tokens(t)
}

/// What a tool adds to the report at most: its token budget and the
/// characters of its definition.
pub open spec fn tool_cost(t: ToolSpec) -> int {
    tool_budget(t) + t.definition_json@.len()
}

/// `tool_cost` as a function.
pub open spec fn tool_cost_fn() -> spec_fn(ToolSpec) -> int {
    |t: ToolSpec| tool_cost(t)
}

pub proof fn lemma_tool_values_nonneg()
    ensures
        forall|t: ToolSpec| #[trigger] (tool_tokens_fn())(t) >= 0,
        forall|t: ToolSpec| #[trigger] (tool_cost_fn())(t) >= 0,
{
    assert forall|t: ToolSpec| #[trigger] (tool_tokens_fn())(t) >= 0 by {
        lemma_properties_nonneg(t);
    }
    assert forall|t: ToolSpec| #[trigger] (tool_cost_fn())(t) >= 0 by {
        lemma_properties_nonneg(t);
    }
}

pub proof fn lemma_sum_tool_tokens_is_sum_by(ts: Seq<ToolSpec>)
    ensures
        sum_tool_tokens(ts) == sum_by(ts, tool_tokens_fn()),
    decreases ts.len(),
{
    if ts.len() > 0 {
        lemma_sum_tool_tokens_is_sum_by(ts.drop_last());
    }
}

pub proof fn lemma_sum_tool_budget_le_cost(ts: Seq<ToolSpec>)
    ensures
        sum_tool_budget(ts) <= sum_by(ts, tool_cost_fn()),
    decreases ts.len(),
{
    if ts.len() > 0 {
        lemma_sum_tool_budget_le_cost(ts.drop_last());
    }
}

// ---------------------------------------------------------------------
// Grouping
// ---------------------------------------------------------------------

/// The group of a tool: its owner, or `ungrouped`.
pub open spec fn owner_label(t: ToolSpec) -> Seq<char> {
    match t.owner {
        Some(o) => o@,
        None => "ungrouped"@,
    }
}

/// The tools of `ts` in group `o`, in order.
pub open spec fn with_owner(ts: Seq<ToolSpec>, o: Seq<char>) -> Seq<ToolSpec>
    decreases ts.len(),
{
    if ts.len() == 0 {
        Seq::empty()
    } else if owner_label(ts.last()) == o {
        with_owner(ts.drop_last(), o).push(ts.last())
    } else {
        with_owner(ts.drop_last(), o)
    }
}

/// The tools of `ts`, group by group in the order of `owners`.
pub open spec fn grouped(ts: Seq<ToolSpec>, owners: Seq<Seq<char>>) -> Seq<ToolSpec>
    decreases owners.len(),
{
    if owners.len() == 0 {
        Seq::empty()
    } else {
        grouped(ts, owners.drop_last()) + with_owner(ts, owners.last())
    }
}

/// The sum of `f` over each group of `owners`.
pub open spec fn sum_groups(
    ts: Seq<ToolSpec>,
    owners: Seq<Seq<char>>,
    f: spec_fn(ToolSpec) -> int,
) -> int
    decreases owners.len(),
{
    if owners.len() == 0 {
        0
    } else {
        sum_groups(ts, owners.drop_last(), f) + sum_by(with_owner(ts, owners.last()), f)
    }
}

/// No owner occurs twice.
pub open spec fn distinct(owners: Seq<Seq<char>>) -> bool {
    forall|i: int, j: int| 0 <= i < j < owners.len() ==> owners[i] != owners[j]
}

/// Every tool's group is among `owners`.
pub open spec fn covers(owners: Seq<Seq<char>>, ts: Seq<ToolSpec>) -> bool {
    forall|k: int| 0 <= k < ts.len() ==> owners.contains(owner_label(#[trigger] ts[k]))
}

pub proof fn lemma_with_owner_step(ts: Seq<ToolSpec>, i: int, o: Seq<char>)
    requires
        0 <= i < ts.len(),
    ensures
        with_owner(ts.take(i + 1), o) == if owner_label(ts[i]) == o {
            with_owner(ts.take(i), o).push(ts[i])
        } else {
            with_owner(ts.take(i), o)
        },
{
    assert(ts.take(i + 1).drop_last() =~= ts.take(i));
}

pub proof fn lemma_grouped_step(ts: Seq<ToolSpec>, owners: Seq<Seq<char>>, j: int)
    requires
        0 <= j < owners.len(),
    ensures
        grouped(ts, owners.take(j + 1)) == grouped(ts, owners.take(j)) + with_owner(ts, owners[j]),
        sum_groups(ts, owners.take(j + 1), tool_cost_fn()) == sum_groups(
            ts,
            owners.take(j),
            tool_cost_fn(),
        ) + sum_by(with_owner(ts, owners[j]), tool_cost_fn()),
{
    assert(owners.take(j + 1).drop_last() =~= owners.take(j));
}

pub proof fn lemma_sum_grouped(ts: Seq<ToolSpec>, owners: Seq<Seq<char>>, f: spec_fn(ToolSpec) -> int)
    ensures
        sum_by(grouped(ts, owners), f) == sum_groups(ts, owners, f),
    decreases owners.len(),
{
    if owners.len() > 0 {
        lemma_sum_grouped(ts, owners.drop_last(), f);
        lemma_sum_by_concat(grouped(ts, owners.drop_last()), with_owner(ts, owners.last()), f);
    }
}

proof fn lemma_sum_groups_last_tool(ts: Seq<ToolSpec>, owners: Seq<Seq<char>>, f: spec_fn(ToolSpec) -> int)
    requires
        ts.len() > 0,
        distinct(owners),
    ensures
        sum_groups(ts, owners, f) == sum_groups(ts.drop_last(), owners, f) + if owners.contains(
            owner_label(ts.last()),
        ) {
            f(ts.last())
        } else {
            0
        },
    decreases owners.len(),
{
    if owners.len() > 0 {
        let rest = owners.drop_last();
        assert(distinct(rest));
        lemma_sum_groups_last_tool(ts, rest, f);
        let o = owners.last();
        let l = owner_label(ts.last());
        if l == o {
            lemma_sum_by_push(with_owner(ts.drop_last(), o), ts.last(), f);
            assert(!rest.contains(l)) by {
                if rest.contains(l) {
                    let i = choose|i: int| 0 <= i < rest.len() && rest[i] == l;
                    assert(owners[i] == owners[owners.len() - 1]);
                }
            }
            assert(owners.contains(l)) by {
                assert(owners[owners.len() - 1] == l);
            }
        } else {
            assert(owners.contains(l) == rest.contains(l)) by {
                if owners.contains(l) {
                    let i = choose|i: int| 0 <= i < owners.len() && owners[i] == l;
                    assert(rest[i] == l);
                }
                if rest.contains(l) {
                    let i = choose|i: int| 0 <= i < rest.len() && rest[i] == l;
                    assert(owners[i] == l);
                }
            }
        }
    }
}

/// Summing group by group over distinct owners that cover every tool is
/// summing over the tools.
pub proof fn lemma_sum_groups_total(ts: Seq<ToolSpec>, owners: Seq<Seq<char>>, f: spec_fn(ToolSpec) -> int)
    requires
        distinct(owners),
        covers(owners, ts),
    ensures
        sum_groups(ts, owners, f) == sum_by(ts, f),
    decreases ts.len(),
{
    if ts.len() == 0 {
        lemma_sum_groups_empty(ts, owners, f);
    } else {
        assert(covers(owners, ts.drop_last())) by {
            assert forall|k: int| 0 <= k < ts.drop_last().len() implies owners.contains(
                owner_label(#[trigger] ts.drop_last()[k]),
            ) by {
                assert(ts.drop_last()[k] == ts[k]);
            }
        }
        lemma_sum_groups_total(ts.drop_last(), owners, f);
        lemma_sum_groups_last_tool(ts, owners, f);
        assert(owners.contains(owner_label(ts[ts.len() - 1])));
    }
}

proof fn lemma_sum_groups_empty(ts: Seq<ToolSpec>, owners: Seq<Seq<char>>, f: spec_fn(ToolSpec) -> int)
    requires
        ts.len() == 0,
    ensures
        sum_groups(ts, owners, f) == 0,
    decreases owners.len(),
{
    if owners.len() > 0 {
        lemma_sum_groups_empty(ts, owners.drop_last(), f);
    }
}

/// Regrouping tools by distinct owners that cover them keeps their sum.
pub proof fn lemma_grouped_sum(ts: Seq<ToolSpec>, owners: Seq<Seq<char>>, f: spec_fn(ToolSpec) -> int)
    requires
        distinct(owners),
        covers(owners, ts),
    ensures
        sum_by(grouped(ts, owners), f) == sum_by(ts, f),
{
    lemma_sum_grouped(ts, owners, f);
    lemma_sum_groups_total(ts, owners, f);
}

pub proof fn lemma_sum_groups_prefix(
    ts: Seq<ToolSpec>,
    owners: Seq<Seq<char>>,
    j: int,
    f: spec_fn(ToolSpec) -> int,
)
    requires
        0 <= j <= owners.len(),
        forall|t: ToolSpec| #[trigger] f(t) >= 0,
    ensures
        0 <= sum_groups(ts, owners.take(j), f) <= sum_groups(ts, owners, f),
    decreases owners.len(),
{
    if j == owners.len() {
        assert(owners.take(j) =~= owners);
    }
    if owners.len() > 0 {
        if j < owners.len() {
            assert(owners.drop_last().take(j) =~= owners.take(j));
            lemma_sum_groups_prefix(ts, owners.drop_last(), j, f);
        } else {
            lemma_sum_groups_prefix(ts, owners.drop_last(), 0, f);
        }
        lemma_sum_by_nonneg(with_owner(ts, owners.last()), f);
    }
}

pub proof fn lemma_with_owner_prefix_sum(
    ts: Seq<ToolSpec>,
    i: int,
    o: Seq<char>,
    f: spec_fn(ToolSpec) -> int,
)
    requires
        0 <= i <= ts.len(),
        forall|t: ToolSpec| #[trigger] f(t) >= 0,
    ensures
        0 <= sum_by(with_owner(ts.take(i), o), f) <= sum_by(with_owner(ts, o), f),
    decreases ts.len(),
{
    if i == ts.len() {
        assert(ts.take(i) =~= ts);
        lemma_sum_by_nonneg(with_owner(ts, o), f);
    } else {
        assert(ts.drop_last().take(i) =~= ts.take(i));
        lemma_with_owner_prefix_sum(ts.drop_last(), i, o, f);
        if owner_label(ts.last()) == o {
            lemma_sum_by_push(with_owner(ts.drop_last(), o), ts.last(), f);
        }
    }
}

/// Every tool of a group is a tool of the list.
pub proof fn lemma_with_owner_from(ts: Seq<ToolSpec>, o: Seq<char>)
    ensures
        forall|k: int|
            0 <= k < with_owner(ts, o).len() ==> exists|j: int|
                0 <= j < ts.len() && ts[j] == #[trigger] with_owner(ts, o)[k],
    decreases ts.len(),
{
    if ts.len() > 0 {
        let d = ts.drop_last();
        lemma_with_owner_from(d, o);
        assert forall|k: int| 0 <= k < with_owner(ts, o).len() implies exists|j: int|
            0 <= j < ts.len() && ts[j] == #[trigger] with_owner(ts, o)[k] by {
            if k < with_owner(d, o).len() {
                let j = choose|j: int| 0 <= j < d.len() && d[j] == with_owner(d, o)[k];
                assert(ts[j] == d[j]);
            } else {
                assert(ts[ts.len() - 1] == with_owner(ts, o)[k]);
            }
        }
    }
}

/// Every tool of the regrouped list is a tool of the list.
pub proof fn lemma_grouped_from(ts: Seq<ToolSpec>, owners: Seq<Seq<char>>)
    ensures
        forall|k: int|
            0 <= k < grouped(ts, owners).len() ==> exists|j: int|
                0 <= j < ts.len() && ts[j] == #[trigger] grouped(ts, owners)[k],
    decreases owners.len(),
{
    if owners.len() > 0 {
        let rest = owners.drop_last();
        lemma_grouped_from(ts, rest);
        lemma_with_owner_from(ts, owners.last());
        let a = grouped(ts, rest);
        let b = with_owner(ts, owners.last());
        assert forall|k: int| 0 <= k < grouped(ts, owners).len() implies exists|j: int|
            0 <= j < ts.len() && ts[j] == #[trigger] grouped(ts, owners)[k] by {
            if k < a.len() {
                assert(grouped(ts, owners)[k] == a[k]);
            } else {
                assert(grouped(ts, owners)[k] == b[k - a.len()]);
            }
        }
    }
}

/// Each tool counted once, as a function.
pub open spec fn one_fn() -> spec_fn(ToolSpec) -> int {
    |t: ToolSpec| 1int
}

pub proof fn lemma_sum_by_one(ts: Seq<ToolSpec>)
    ensures
        sum_by(ts, one_fn()) == ts.len(),
    decreases ts.len(),
{
    if ts.len() > 0 {
        lemma_sum_by_one(ts.drop_last());
    }
}

/// Regrouping tools by distinct owners that cover them keeps their number.
pub proof fn lemma_grouped_len(ts: Seq<ToolSpec>, owners: Seq<Seq<char>>)
    requires
        distinct(owners),
        covers(owners, ts),
    ensures
        grouped(ts, owners).len() == ts.len(),
{
    lemma_grouped_sum(ts, owners, one_fn());
    lemma_sum_by_one(ts);
    lemma_sum_by_one(grouped(ts, owners));
}

// ---------------------------------------------------------------------
// Ordering of owners
// ---------------------------------------------------------------------

/// Lexicographic order of texts by code point, the order of Rust's
/// `String` (UTF-8 preserves code point order byte by byte).
pub open spec fn seq_less(a: Seq<char>, b: Seq<char>) -> bool
    decreases a.len(),
{
    if a.len() == 0 {
        b.len() > 0
    } else if b.len() == 0 {
        false
    } else if a[0] != b[0] {
        a[0] < b[0]
    } else {
        seq_less(a.drop_first(), b.drop_first())
    }
}

/// Each owner is less than the next.
pub open spec fn strictly_sorted(owners: Seq<Seq<char>>) -> bool {
    forall|i: int, j: int| 0 <= i < j < owners.len() ==> seq_less(owners[i], owners[j])
}

pub proof fn lemma_seq_less_irreflexive(a: Seq<char>)
    ensures
        !seq_less(a, a),
    decreases a.len(),
{
    if a.len() > 0 {
        lemma_seq_less_irreflexive(a.drop_first());
    }
}

pub proof fn lemma_seq_less_total(a: Seq<char>, b: Seq<char>)
    ensures
        a == b || seq_less(a, b) || seq_less(b, a),
    decreases a.len(),
{
    if a.len() > 0 && b.len() > 0 && a[0] == b[0] {
        lemma_seq_less_total(a.drop_first(), b.drop_first());
        if a.drop_first() == b.drop_first() {
            assert(a =~= seq![a[0]] + a.drop_first());
            assert(b =~= seq![b[0]] + b.drop_first());
        }
    } else if a.len() == 0 && b.len() == 0 {
        assert(a =~= b);
    }
}

pub proof fn lemma_seq_less_transitive(a: Seq<char>, b: Seq<char>, c: Seq<char>)
    requires
        seq_less(a, b),
        seq_less(b, c),
    ensures
        seq_less(a, c),
    decreases a.len(),
{
    if a.len() > 0 && b.len() > 0 && c.len() > 0 && a[0] == b[0] && b[0] == c[0] {
        lemma_seq_less_transitive(a.drop_first(), b.drop_first(), c.drop_first());
    }
}

pub proof fn lemma_sorted_distinct(owners: Seq<Seq<char>>)
    requires
        strictly_sorted(owners),
    ensures
        distinct(owners),
{
    assert forall|i: int, j: int| 0 <= i < j < owners.len() implies owners[i] != owners[j] by {
        lemma_seq_less_irreflexive(owners[i]);
    }
}

} // verus!
