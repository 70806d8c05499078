//! Token counting with the o200k_base tokenizer, memoised in a
//! least-recently-used cache keyed by each text's byte length and BLAKE3
//! digest, and the token accounting of tool definitions, messages and
//! whole chat requests.
use crate::message::{content_text, message_content_token_text, Message, MessageContent};
use crate::text::{
    lemma_trim_end_dots_idempotent, lemma_trim_end_dots_shape, trim_end_dots, trim_end_dots_str,
};
use lru::LruCache;
use std::num::NonZeroUsize;
use vstd::prelude::*;
use vstd::string::*;
use vstd::utf8::encode_utf8;

verus! {

broadcast use vstd::string::group_string_axioms;

/// Number of texts whose counts the cache keeps.
pub const MAX_TOKEN_CACHE_SIZE: usize = 1024;

/// Tokens for the framing of each tool definition.
pub const FUNC_INIT: usize = 7;

/// Tokens for the framing of a non-empty property list.
pub const PROP_INIT: usize = 3;

/// Tokens for the framing of each property.
pub const PROP_KEY: usize = 3;

/// Tokens taken back when a property lists enumerated values.
pub const ENUM_INIT: usize = 3;

/// Tokens for the framing of each enumerated value.
pub const ENUM_ITEM: usize = 3;

/// Tokens closing a non-empty list of tool definitions.
pub const FUNC_END: usize = 12;

/// Tokens for the framing of each message.
pub const TOKENS_PER_MESSAGE: usize = 4;

/// Tokens that prime the model's reply.
pub const REPLY_PRIMER: usize = 3;

// ---------------------------------------------------------------------
// The outside code: BLAKE3, the tokenizer and the LRU cache
// ---------------------------------------------------------------------

#[verifier::external_type_specification]
#[verifier::external_body]
#[verifier::reject_recursive_types(K)]
#[verifier::reject_recursive_types(V)]
#[verifier::reject_recursive_types(S)]
pub struct ExLruCache<K, V, S>(LruCache<K, V, S>);

#[verifier::external_type_specification]
#[verifier::external_body]
pub struct ExLruHasher(lru::DefaultHasher);

/// The BLAKE3 digest of a byte sequence.
pub uninterp spec fn blake3_digest_of(data: Seq<u8>) -> Seq<u8>;

/// What the o200k_base tokenizer gives a text, special tokens included:
/// the number of its tokens, or nothing when encoding fails.
pub uninterp spec fn o200k_encoding(text: Seq<char>) -> Option<nat>;

/// The tokenizer encodes the text.
pub open spec fn o200k_encodes(text: Seq<char>) -> bool {
    o200k_encoding(text) is Some
}

/// The number of tokens of a text (none counted when it cannot be
/// encoded).
pub open spec fn o200k_token_count(text: Seq<char>) -> nat {
    match o200k_encoding(text) {
        Some(n) => n,
        None => 0,
    }
}

/// The entries of a token cache, from most to least recently used, each
/// a key (byte length, digest) with its count.
pub uninterp spec fn token_cache_entries(cache: LruCache<(usize, [u8; 32]), usize>) -> Seq<
    ((usize, Seq<u8>), usize),
>;

/// The number of entries that a token cache holds at most.
pub uninterp spec fn token_cache_capacity(cache: LruCache<(usize, [u8; 32]), usize>) -> nat;

/// `blake3::hash`: the 32-byte BLAKE3 digest of `data`, a function of
/// `data` alone.
#[verifier::external_body]
fn blake3_digest(data: &[u8]) -> (d: [u8; 32])
    ensures
        d@ == blake3_digest_of(data@),
{
    *blake3::hash(data).as_bytes()
}

/// `CoreBPE::encode` on the shared o200k_base tokenizer
/// (`tiktoken_rs::o200k_base_singleton`), with every special token
/// allowed: the number of tokens of `text`, or nothing when the pattern
/// matcher reports an error (such as its backtracking limit). Either is a
/// function of the text alone. The search for special tokens, a plain
/// alternation of literals, is handed whole to the `regex` engine and
/// cannot fail. Every token covers at least one byte of the text, so
/// there are no more tokens than bytes; every character falls in some
/// piece of the pattern and every piece gives a token, so a text that is
/// not empty has at least one.
#[verifier::external_body]
fn count_o200k_tokens(text: &str) -> (r: Option<usize>)
    ensures
        match r {
            Some(n) => o200k_encoding(text@) == Some(n as nat),
            None => o200k_encoding(text@) is None,
        },
        r matches Some(n) ==> n <= encode_utf8(text@).len() && (text@.len() > 0 ==> n >= 1),
{
    let bpe = tiktoken_rs::o200k_base_singleton();
    match bpe.encode(text, &bpe.special_tokens()) {
        Ok((tokens, _)) => Some(tokens.len()),
        Err(_) => None,
    }
}

/// `LruCache::new`: an empty cache that holds at most `cap` entries.
#[verifier::external_body]
fn token_cache_new(cap: usize) -> (c: LruCache<(usize, [u8; 32]), usize>)
    requires
        cap > 0,
    ensures
        token_cache_entries(c) == Seq::<((usize, Seq<u8>), usize)>::empty(),
        token_cache_capacity(c) == cap,
{
    LruCache::new(NonZeroUsize::new(cap).unwrap())
}

/// `LruCache::get` (with the value copied out): the value of `key`, if
/// cached, which then becomes the most recently used entry; the cache is
/// unchanged otherwise.
#[verifier::external_body]
fn token_cache_get(cache: &mut LruCache<(usize, [u8; 32]), usize>, key: &(usize, [u8; 32])) -> (r:
    Option<usize>)
    ensures
        token_cache_capacity(*final(cache)) == token_cache_capacity(*old(cache)),
        ({
            let e = token_cache_entries(*old(cache));
            let p = position_of(e, (key.0, key.1@));
            &&& p >= 0 ==> r == Some(e[p].1) && token_cache_entries(*final(cache)) == seq![e[p]]
                + e.remove(p)
            &&& p < 0 ==> r is None && token_cache_entries(*final(cache)) == e
        }),
{
    cache.get(key).copied()
}

/// `LruCache::put`: `key` now maps to `value` as the most recently used
/// entry. A present key loses its old entry; otherwise, when the cache is
/// full, the least recently used entry is evicted.
#[verifier::external_body]
fn token_cache_put(
    cache: &mut LruCache<(usize, [u8; 32]), usize>,
    key: (usize, [u8; 32]),
    value: usize,
)
    ensures
        token_cache_capacity(*final(cache)) == token_cache_capacity(*old(cache)),
        ({
            let e = token_cache_entries(*old(cache));
            let p = position_of(e, (key.0, key.1@));
            let front = seq![((key.0, key.1@), value)];
            &&& p >= 0 ==> token_cache_entries(*final(cache)) == front + e.remove(p)
            &&& p < 0 && e.len() >= token_cache_capacity(*old(cache)) ==> token_cache_entries(
                *final(cache),
            ) == front + e.drop_last()
            &&& p < 0 && e.len() < token_cache_capacity(*old(cache)) ==> token_cache_entries(
                *final(cache),
            ) == front + e
        }),
{
    cache.put(key, value);
}

/// `LruCache::clear`: the cache is emptied, its capacity kept.
#[verifier::external_body]
fn token_cache_clear(cache: &mut LruCache<(usize, [u8; 32]), usize>)
    ensures
        token_cache_capacity(*final(cache)) == token_cache_capacity(*old(cache)),
        token_cache_entries(*final(cache)) == Seq::<((usize, Seq<u8>), usize)>::empty(),
{
    cache.clear();
}

/// `LruCache::len`: the number of cached entries.
#[verifier::external_body]
fn token_cache_len(cache: &LruCache<(usize, [u8; 32]), usize>) -> (n: usize)
    ensures
        n == token_cache_entries(*cache).len(),
{
    cache.len()
}

// ---------------------------------------------------------------------
// Cache model
// ---------------------------------------------------------------------

/// The first position of `key` in `entries`, or -1 if there is none.
pub open spec fn position_of(entries: Seq<((usize, Seq<u8>), usize)>, key: (usize, Seq<u8>)) -> int
    decreases entries.len(),
{
    if entries.len() == 0 {
        -1
    } else if entries[0].0 == key {
        0
    } else {
        let p = position_of(entries.drop_first(), key);
        if p < 0 {
            -1
        } else {
            p + 1
        }
    }
}

/// `key` is the cache key of `text`: its UTF-8 byte length and the BLAKE3
/// digest of its bytes.
pub open spec fn is_key_of(key: (usize, Seq<u8>), text: Seq<char>) -> bool {
    key.0 == encode_utf8(text).len() && key.1 == blake3_digest_of(encode_utf8(text))
}

/// A cache entry holds the token count of some text with that key, a
/// text that the tokenizer encodes (and a count that, as every count, is
/// at most the text's byte length, and at least one for a text that is
/// not empty).
pub open spec fn entry_is_count(entry: ((usize, Seq<u8>), usize)) -> bool {
    exists|t: Seq<char>|
        is_key_of(entry.0, t) && o200k_encoding(t) == Some(entry.1 as nat) && entry.1
            <= encode_utf8(t).len() && (t.len() > 0 ==> entry.1 >= 1)
}

/// A text that is not empty has at least one byte.
pub proof fn lemma_nonempty_bytes(s: Seq<char>)
    requires
        s.len() > 0,
    ensures
        encode_utf8(s).len() > 0,
{
}

/// What counting `text` gives against the cache `entries`: the cached
/// value for its key, or else the tokenizer's count, or nothing when the
/// text is not cached and cannot be encoded.
pub open spec fn cached_count(entries: Seq<((usize, Seq<u8>), usize)>, text: Seq<char>) -> Option<
    int,
> {
    let p = position_of(entries, (encode_utf8(text).len() as usize, blake3_digest_of(encode_utf8(text))));
    if p >= 0 {
        Some(entries[p].1 as int)
    } else {
        match o200k_encoding(text) {
            Some(n) => Some(n as int),
            None => None,
        }
    }
}

proof fn lemma_position_of(entries: Seq<((usize, Seq<u8>), usize)>, key: (usize, Seq<u8>))
    ensures
        ({
            let p = position_of(entries, key);
            &&& p >= 0 ==> 0 <= p < entries.len() && entries[p].0 == key
            &&& p < 0 ==> p == -1 && forall|i: int| 0 <= i < entries.len() ==> entries[i].0 != key
        }),
    decreases entries.len(),
{
    if entries.len() > 0 && entries[0].0 != key {
        lemma_position_of(entries.drop_first(), key);
        let p = position_of(entries.drop_first(), key);
        if p < 0 {
            assert forall|i: int| 0 <= i < entries.len() implies entries[i].0 != key by {
                if i > 0 {
                    assert(entries[i] == entries.drop_first()[i - 1]);
                }
            }
        }
    }
}

/// Every entry of `entries` holds a count.
pub open spec fn all_entries_are_counts(entries: Seq<((usize, Seq<u8>), usize)>) -> bool {
    forall|i: int| 0 <= i < entries.len() ==> entry_is_count(#[trigger] entries[i])
}

proof fn lemma_counts_kept(
    old_e: Seq<((usize, Seq<u8>), usize)>,
    new_e: Seq<((usize, Seq<u8>), usize)>,
    front: ((usize, Seq<u8>), usize),
)
    requires
        all_entries_are_counts(old_e),
        entry_is_count(front),
        new_e.len() >= 1,
        new_e[0] == front,
        forall|i: int|
            1 <= i < new_e.len() ==> exists|j: int| 0 <= j < old_e.len() && old_e[j] == #[trigger] new_e[i],
    ensures
        all_entries_are_counts(new_e),
{
    assert forall|i: int| 0 <= i < new_e.len() implies entry_is_count(#[trigger] new_e[i]) by {
        if i >= 1 {
            let j = choose|j: int| 0 <= j < old_e.len() && old_e[j] == new_e[i];
            assert(entry_is_count(old_e[j]));
        }
    }
}

// ---------------------------------------------------------------------
// Counts relative to the cache
// ---------------------------------------------------------------------

/// Texts of `texts` that share a cache key share what the tokenizer gives
/// them: no two of them collide under BLAKE3.
pub open spec fn keys_identify_counts_in(texts: Set<Seq<char>>) -> bool {
    forall|a: Seq<char>, b: Seq<char>|
        #![trigger texts.contains(a), texts.contains(b)]
        texts.contains(a) && texts.contains(b) && encode_utf8(a).len() == encode_utf8(b).len()
            && blake3_digest_of(encode_utf8(a)) == blake3_digest_of(encode_utf8(b)) ==> o200k_encoding(a)
            == o200k_encoding(b)
}

/// Every entry of `entries` under the key of a text of `texts` holds
/// that text's count.
pub open spec fn cache_agrees(entries: Seq<((usize, Seq<u8>), usize)>, texts: Set<Seq<char>>) -> bool {
    forall|i: int, t: Seq<char>|
        #![trigger entries[i], texts.contains(t)]
        0 <= i < entries.len() && texts.contains(t) && is_key_of(entries[i].0, t) ==> o200k_encoding(t)
            == Some(entries[i].1 as nat)
}

/// A cache answers every text of `texts` as the tokenizer does, and keeps
/// doing so while those texts are counted: the cache holds no count of
/// another text under their keys, and they do not collide among
/// themselves. A new cache is exact for any texts that do not collide.
pub open spec fn exact_for(entries: Seq<((usize, Seq<u8>), usize)>, texts: Set<Seq<char>>) -> bool {
    keys_identify_counts_in(texts) && cache_agrees(entries, texts)
}

/// Every entry of `new` is an entry of `old` or the count of a text of
/// `texts` under its key.
pub open spec fn entries_from(
    new: Seq<((usize, Seq<u8>), usize)>,
    old: Seq<((usize, Seq<u8>), usize)>,
    texts: Set<Seq<char>>,
) -> bool {
    forall|i: int|
        0 <= i < new.len() ==> old.contains(#[trigger] new[i]) || exists|t: Seq<char>|
            texts.contains(t) && is_key_of(new[i].0, t) && o200k_encoding(t) == Some(new[i].1 as nat)
}

/// The texts of the items of `s`, each item giving the texts `f` names.
pub open spec fn union_of<A>(s: Seq<A>, f: spec_fn(A) -> Set<Seq<char>>) -> Set<Seq<char>>
    decreases s.len(),
{
    if s.len() == 0 {
        Set::empty()
    } else {
        union_of(s.drop_last(), f).union(f(s.last()))
    }
}

pub proof fn lemma_union_of_step<A>(s: Seq<A>, f: spec_fn(A) -> Set<Seq<char>>, i: int)
    requires
        0 <= i < s.len(),
    ensures
        union_of(s.take(i + 1), f) == union_of(s.take(i), f).union(f(s[i])),
{
    lemma_take_last(s, i);
}

pub proof fn lemma_union_of_prefix<A>(s: Seq<A>, f: spec_fn(A) -> Set<Seq<char>>, i: int)
    requires
        0 <= i <= s.len(),
    ensures
        union_of(s.take(i), f).subset_of(union_of(s, f)),
        i < s.len() ==> f(s[i]).subset_of(union_of(s, f)),
    decreases s.len() - i,
{
    if i == s.len() {
        assert(s.take(i) =~= s);
    } else {
        lemma_union_of_prefix(s, f, i + 1);
        lemma_union_of_step(s, f, i);
    }
}

/// Counting keeps a cache exact for `all` when the cache it starts from
/// is, and it only adds counts of texts of `all`.
pub proof fn lemma_exact_kept(
    old: Seq<((usize, Seq<u8>), usize)>,
    new: Seq<((usize, Seq<u8>), usize)>,
    texts: Set<Seq<char>>,
    all: Set<Seq<char>>,
    part: Set<Seq<char>>,
)
    requires
        exact_for(old, all),
        texts.subset_of(all),
        part.subset_of(all),
        entries_from(new, old, texts),
    ensures
        exact_for(new, part),
{
    assert forall|i: int, t: Seq<char>|
        #![trigger new[i], part.contains(t)]
        0 <= i < new.len() && part.contains(t) && is_key_of(new[i].0, t) implies o200k_encoding(t)
        == Some(new[i].1 as nat) by {
        assert(all.contains(t));
        if old.contains(new[i]) {
            let j = choose|j: int| 0 <= j < old.len() && old[j] == new[i];
            assert(old[j] == new[i]);
        } else {
            let s = choose|s: Seq<char>|
                texts.contains(s) && is_key_of(new[i].0, s) && o200k_encoding(s) == Some(
                    new[i].1 as nat,
                );
            assert(all.contains(s));
        }
    }
    assert forall|a: Seq<char>, b: Seq<char>|
        part.contains(a) && part.contains(b) && encode_utf8(a).len() == encode_utf8(b).len()
            && blake3_digest_of(encode_utf8(a)) == blake3_digest_of(encode_utf8(b)) implies o200k_encoding(a)
        == o200k_encoding(b) by {
        assert(all.contains(a) && all.contains(b));
    }
}

pub proof fn lemma_entries_from_trans(
    e0: Seq<((usize, Seq<u8>), usize)>,
    e1: Seq<((usize, Seq<u8>), usize)>,
    e2: Seq<((usize, Seq<u8>), usize)>,
    a: Set<Seq<char>>,
    b: Set<Seq<char>>,
)
    requires
        entries_from(e1, e0, a),
        entries_from(e2, e1, b),
    ensures
        entries_from(e2, e0, a.union(b)),
{
    assert forall|i: int| 0 <= i < e2.len() implies e0.contains(#[trigger] e2[i]) || exists|t: Seq<char>|
        a.union(b).contains(t) && is_key_of(e2[i].0, t) && o200k_encoding(t) == Some(
            e2[i].1 as nat,
        ) by {
        if e1.contains(e2[i]) {
            let j = choose|j: int| 0 <= j < e1.len() && e1[j] == e2[i];
            assert(e1[j] == e2[i]);
            if !e0.contains(e1[j]) {
                let t = choose|t: Seq<char>|
                    a.contains(t) && is_key_of(e1[j].0, t) && o200k_encoding(t) == Some(
                        e1[j].1 as nat,
                    );
                assert(a.union(b).contains(t));
            }
        } else {
            let t = choose|t: Seq<char>|
                b.contains(t) && is_key_of(e2[i].0, t) && o200k_encoding(t) == Some(e2[i].1 as nat);
            assert(a.union(b).contains(t));
        }
    }
}

pub proof fn lemma_entries_from_same(e: Seq<((usize, Seq<u8>), usize)>, a: Set<Seq<char>>)
    ensures
        entries_from(e, e, a),
{
    assert forall|i: int| 0 <= i < e.len() implies e.contains(#[trigger] e[i]) by {}
}

pub proof fn lemma_step_exact<A>(
    e0: Seq<((usize, Seq<u8>), usize)>,
    cur: Seq<((usize, Seq<u8>), usize)>,
    base: Set<Seq<char>>,
    s: Seq<A>,
    f: spec_fn(A) -> Set<Seq<char>>,
    i: int,
)
    requires
        0 <= i < s.len(),
        entries_from(cur, e0, base.union(union_of(s.take(i), f))),
        exact_for(e0, base.union(union_of(s, f))),
    ensures
        exact_for(cur, f(s[i])),
{
    lemma_union_of_prefix(s, f, i);
    lemma_exact_kept(e0, cur, base.union(union_of(s.take(i), f)), base.union(union_of(s, f)), f(s[i]));
}

pub proof fn lemma_step_entries<A>(
    e0: Seq<((usize, Seq<u8>), usize)>,
    cur: Seq<((usize, Seq<u8>), usize)>,
    new: Seq<((usize, Seq<u8>), usize)>,
    base: Set<Seq<char>>,
    s: Seq<A>,
    f: spec_fn(A) -> Set<Seq<char>>,
    i: int,
)
    requires
        0 <= i < s.len(),
        entries_from(cur, e0, base.union(union_of(s.take(i), f))),
        entries_from(new, cur, f(s[i])),
    ensures
        entries_from(new, e0, base.union(union_of(s.take(i + 1), f))),
{
    lemma_entries_from_trans(e0, cur, new, base.union(union_of(s.take(i), f)), f(s[i]));
    lemma_union_of_step(s, f, i);
    assert(base.union(union_of(s.take(i), f)).union(f(s[i])) =~= base.union(
        union_of(s.take(i + 1), f),
    ));
}

/// The text counted for a string value of an `enum`, if it has one.
pub open spec fn enum_item_texts(o: Option<String>) -> Set<Seq<char>> {
    match o {
        Some(s) => set![s@],
        None => Set::empty(),
    }
}

/// `enum_item_texts` as a function value.
pub open spec fn enum_item_texts_fn() -> spec_fn(Option<String>) -> Set<Seq<char>> {
    |o: Option<String>| enum_item_texts(o)
}

/// The texts counted for a property.
pub open spec fn property_texts(p: ToolProperty) -> Set<Seq<char>> {
    set![property_line(p)].union(
        match p.enum_values {
            Some(items) => union_of(items@, enum_item_texts_fn()),
            None => Set::empty(),
        },
    )
}

/// `property_texts` as a function value.
pub open spec fn property_texts_fn() -> spec_fn(ToolProperty) -> Set<Seq<char>> {
    |p: ToolProperty| property_texts(p)
}

/// The texts counted for a tool.
pub open spec fn tool_texts(t: ToolSpec) -> Set<Seq<char>> {
    set![tool_line(t)].union(
        match t.properties {
            Some(ps) => union_of(ps@, property_texts_fn()),
            None => Set::empty(),
        },
    )
}

/// `tool_texts` as a function value.
pub open spec fn tool_texts_fn() -> spec_fn(ToolSpec) -> Set<Seq<char>> {
    |t: ToolSpec| tool_texts(t)
}

/// The texts counted for a list of tools.
pub open spec fn tools_texts(ts: Seq<ToolSpec>) -> Set<Seq<char>> {
    union_of(ts, tool_texts_fn())
}

/// The text counted for a piece of a message.
pub open spec fn content_texts_fn() -> spec_fn(MessageContent) -> Set<Seq<char>> {
    |c: MessageContent| set![content_text(c)]
}

/// The texts counted for a message: none when the agent does not see it.
pub open spec fn message_texts(m: Message) -> Set<Seq<char>> {
    if m.agent_visible {
        union_of(m.content@, content_texts_fn())
    } else {
        Set::empty()
    }
}

/// `message_texts` as a function value.
pub open spec fn message_texts_fn() -> spec_fn(Message) -> Set<Seq<char>> {
    |m: Message| message_texts(m)
}

/// The texts counted for a chat request.
pub open spec fn chat_texts(system_prompt: Seq<char>, ms: Seq<Message>, ts: Seq<ToolSpec>) -> Set<
    Seq<char>,
> {
    (if system_prompt.len() > 0 {
        set![system_prompt]
    } else {
        Set::empty()
    }).union(union_of(ms, message_texts_fn())).union(tools_texts(ts))
}

/// A text as the one text it counts.
pub open spec fn string_texts_fn() -> spec_fn(String) -> Set<Seq<char>> {
    |s: String| set![s@]
}

/// Counting more texts can only widen what the entries come from.
pub proof fn lemma_entries_from_mono(
    new: Seq<((usize, Seq<u8>), usize)>,
    old: Seq<((usize, Seq<u8>), usize)>,
    a: Set<Seq<char>>,
    b: Set<Seq<char>>,
)
    requires
        entries_from(new, old, a),
        a.subset_of(b),
    ensures
        entries_from(new, old, b),
{
    assert forall|i: int| 0 <= i < new.len() implies old.contains(#[trigger] new[i]) || exists|
        t: Seq<char>,
    | b.contains(t) && is_key_of(new[i].0, t) && o200k_encoding(t) == Some(new[i].1 as nat) by {
        if !old.contains(new[i]) {
            let t = choose|t: Seq<char>|
                a.contains(t) && is_key_of(new[i].0, t) && o200k_encoding(t) == Some(new[i].1 as nat);
            assert(b.contains(t));
        }
    }
}

/// A cache exact for some texts is exact for any of them.
pub proof fn lemma_exact_subset(e: Seq<((usize, Seq<u8>), usize)>, a: Set<Seq<char>>, b: Set<Seq<char>>)
    requires
        exact_for(e, a),
        b.subset_of(a),
    ensures
        exact_for(e, b),
{
    lemma_entries_from_same(e, Set::empty());
    lemma_exact_kept(e, e, Set::empty(), a, b);
}

/// The texts of the items of a list lie within a set when those of each
/// item do.
pub proof fn lemma_union_of_bounded<A>(s: Seq<A>, f: spec_fn(A) -> Set<Seq<char>>, x: Set<Seq<char>>)
    requires
        forall|k: int| 0 <= k < s.len() ==> (#[trigger] f(s[k])).subset_of(x),
    ensures
        union_of(s, f).subset_of(x),
    decreases s.len(),
{
    if s.len() > 0 {
        lemma_union_of_bounded(s.drop_last(), f, x);
        assert(f(s[s.len() - 1]).subset_of(x));
    }
}

/// Lists whose items name the same texts, item by item, name the same
/// texts.
pub proof fn lemma_union_of_pointwise<A>(a: Seq<A>, b: Seq<A>, f: spec_fn(A) -> Set<Seq<char>>)
    requires
        a.len() == b.len(),
        forall|k: int| 0 <= k < a.len() ==> f(#[trigger] a[k]) == f(b[k]),
    ensures
        union_of(a, f) == union_of(b, f),
    decreases a.len(),
{
    if a.len() > 0 {
        lemma_union_of_pointwise(a.drop_last(), b.drop_last(), f);
        assert(f(a[a.len() - 1]) == f(b[a.len() - 1]));
    }
}

/// A cache that is exact for a text answers it as the tokenizer does,
/// whatever else it holds: counting the text then gives the tokenizer's
/// count, whichever texts were counted before.
pub proof fn lemma_exact_cache_answers(entries: Seq<((usize, Seq<u8>), usize)>, text: Seq<char>)
    requires
        exact_for(entries, set![text]),
        encode_utf8(text).len() <= usize::MAX,
    ensures
        cached_count(entries, text) == match o200k_encoding(text) {
            Some(n) => Some(n as int),
            None => None,
        },
{
    let key = (encode_utf8(text).len() as usize, blake3_digest_of(encode_utf8(text)));
    lemma_position_of(entries, key);
    let p = position_of(entries, key);
    if p >= 0 {
        assert(set![text].contains(text));
        assert(is_key_of(entries[p].0, text));
    }
}

/// A new cache is exact for texts that do not collide.
pub proof fn lemma_new_cache_exact(texts: Set<Seq<char>>)
    requires
        keys_identify_counts_in(texts),
    ensures
        exact_for(Seq::<((usize, Seq<u8>), usize)>::empty(), texts),
{
}

// ---------------------------------------------------------------------
// Tool definitions
// ---------------------------------------------------------------------

/// One property of a tool's input schema, as the token accounting reads
/// it: its name, its `type` and `description` when they are strings, and
/// its `enum` values when `enum` is an array (each value by its text when
/// it is a string).
#[derive(Debug, PartialEq, Eq)]
pub struct ToolProperty {
    pub name: String,
    pub value_type: Option<String>,
    pub description: Option<String>,
    pub enum_values: Option<Vec<Option<String>>>,
}

/// A tool definition as the token accounting and the context report read
/// it.
#[derive(Debug, PartialEq, Eq)]
pub struct ToolSpec {
    pub name: String,
    pub description: Option<String>,
    /// The entries of the input schema's `properties`, when that is an
    /// object.
    pub properties: Option<Vec<ToolProperty>>,
    /// The extension that provides the tool, if known.
    pub owner: Option<String>,
    /// The pretty-printed JSON of the tool's name, description and input
    /// schema.
    pub definition_json: String,
}

fn copy_opt_string(o: &Option<String>) -> (r: Option<String>)
    ensures
        r == *o,
{
    match o {
        Some(s) => Some(s.clone()),
        None => None,
    }
}

fn copy_enum_values(v: &Vec<Option<String>>) -> (r: Vec<Option<String>>)
    ensures
        r@ == v@,
{
    let mut r: Vec<Option<String>> = Vec::new();
    let mut i: usize = 0;
    while i < v.len()
        invariant
            i <= v.len(),
            r@ == v@.take(i as int),
        decreases v.len() - i,
    {
        r.push(copy_opt_string(&v[i]));
        proof {
            assert(r@ =~= v@.take(i as int + 1));
        }
        i = i + 1;
    }
    proof {
        assert(v@.take(v.len() as int) =~= v@);
    }
    r
}

impl Clone for ToolProperty {
    fn clone(&self) -> (r: Self)
        ensures
            property_tokens(r) == property_tokens(*self),
            property_budget(r) == property_budget(*self),
            property_encodes(r) == property_encodes(*self),
            property_texts(r) == property_texts(*self),
    {
        let enum_values = match &self.enum_values {
            Some(v) => Some(copy_enum_values(v)),
            None => None,
        };
        ToolProperty {
            name: self.name.clone(),
            value_type: copy_opt_string(&self.value_type),
            description: copy_opt_string(&self.description),
            enum_values,
        }
    }
}

proof fn lemma_properties_pointwise(a: Seq<ToolProperty>, b: Seq<ToolProperty>)
    requires
        a.len() == b.len(),
        forall|k: int|
            0 <= k < a.len() ==> property_tokens(#[trigger] a[k]) == property_tokens(b[k])
                && property_budget(a[k]) == property_budget(b[k]),
    ensures
        properties_tokens(a) == properties_tokens(b),
        properties_budget(a) == properties_budget(b),
    decreases a.len(),
{
    if a.len() > 0 {
        lemma_properties_pointwise(a.drop_last(), b.drop_last());
        assert(property_tokens(a[a.len() - 1]) == property_tokens(b[a.len() - 1]));
    }
}

impl Clone for ToolSpec {
    fn clone(&self) -> (r: Self)
        ensures
            r.name == self.name,
            r.owner == self.owner,
            r.definition_json == self.definition_json,
            tool_tokens(r) == tool_tokens(*self),
            tool_budget(r) == tool_budget(*self),
            tool_encodes(r) == tool_encodes(*self),
            tool_texts(r) == tool_texts(*self),
    {
        let properties = match &self.properties {
            Some(ps) => {
                let mut r: Vec<ToolProperty> = Vec::new();
                let mut i: usize = 0;
                while i < ps.len()
                    invariant
                        i <= ps.len(),
                        r@.len() == i,
                        forall|k: int|
                            0 <= k < i ==> property_tokens(#[trigger] r@[k]) == property_tokens(ps@[k])
                                && property_budget(r@[k]) == property_budget(ps@[k])
                                && property_encodes(r@[k]) == property_encodes(ps@[k])
                                && property_texts(r@[k]) == property_texts(ps@[k]),
                    decreases ps.len() - i,
                {
                    r.push(ps[i].clone());
                    i = i + 1;
                }
                proof {
                    lemma_properties_pointwise(r@, ps@);
                    lemma_union_of_pointwise(r@, ps@, property_texts_fn());
                    if forall|k: int| 0 <= k < ps@.len() ==> property_encodes(#[trigger] ps@[k]) {
                        assert forall|k: int| 0 <= k < r@.len() implies property_encodes(
                            #[trigger] r@[k],
                        ) by {
                            assert(property_encodes(ps@[k]));
                        }
                    }
                    if forall|k: int| 0 <= k < r@.len() ==> property_encodes(#[trigger] r@[k]) {
                        assert forall|k: int| 0 <= k < ps@.len() implies property_encodes(
                            #[trigger] ps@[k],
                        ) by {
                            assert(property_encodes(r@[k]));
                        }
                    }
                }
                Some(r)
            },
            None => None,
        };
        let r = ToolSpec {
            name: self.name.clone(),
            description: copy_opt_string(&self.description),
            properties,
            owner: copy_opt_string(&self.owner),
            definition_json: self.definition_json.clone(),
        };
        proof {
            assert(tool_line(r) == tool_line(*self));
        }
        r
    }
}

/// The text of an optional string, empty when absent.
pub open spec fn text_or_empty(o: Option<String>) -> Seq<char> {
    match o {
        Some(s) => s@,
        None => Seq::empty(),
    }
}

/// The line by which a tool is counted: `name:description`, trailing dots
/// dropped.
pub open spec fn tool_line(t: ToolSpec) -> Seq<char> {
    t.name@ + ":"@ + trim_end_dots(text_or_empty(t.description))
}

/// The line by which a property is counted: `name:type:description`.
pub open spec fn property_line(p: ToolProperty) -> Seq<char> {
    p.name@ + ":"@ + text_or_empty(p.value_type) + ":"@ + trim_end_dots(text_or_empty(p.description))
}

/// Tokens of the string values of an `enum`.
pub open spec fn enum_items_tokens(items: Seq<Option<String>>) -> int
    decreases items.len(),
{
    if items.len() == 0 {
        0
    } else {
        enum_items_tokens(items.drop_last()) + match items.last() {
            Some(s) => ENUM_ITEM + o200k_token_count(s@),
            None => 0,
        }
    }
}

/// Tokens of one property.
pub open spec fn property_tokens(p: ToolProperty) -> int {
    PROP_KEY + o200k_token_count(property_line(p)) + match p.enum_values {
        Some(items) => enum_items_tokens(items@) - ENUM_INIT,
        None => 0,
    }
}

/// Tokens of a sequence of properties.
pub open spec fn properties_tokens(ps: Seq<ToolProperty>) -> int
    decreases ps.len(),
{
    if ps.len() == 0 {
        0
    } else {
        properties_tokens(ps.drop_last()) + property_tokens(ps.last())
    }
}

/// Tokens of one tool definition, without the closing of the list.
pub open spec fn tool_tokens(t: ToolSpec) -> int {
    FUNC_INIT + o200k_token_count(tool_line(t)) + match t.properties {
        Some(ps) => if ps@.len() > 0 {
            PROP_INIT + properties_tokens(ps@)
        } else {
            0
        },
        None => 0,
    }
}

/// Tokens of each tool of a sequence, summed.
pub open spec fn sum_tool_tokens(ts: Seq<ToolSpec>) -> int
    decreases ts.len(),
{
    if ts.len() == 0 {
        0
    } else {
        sum_tool_tokens(ts.drop_last()) + tool_tokens(ts.last())
    }
}

/// Tokens of a list of tool definitions: nothing for no tools, else each
/// tool and the closing of the list.
pub open spec fn tools_tokens(ts: Seq<ToolSpec>) -> int {
    if ts.len() == 0 {
        0
    } else {
        sum_tool_tokens(ts) + FUNC_END
    }
}

/// Byte length of a text.
pub open spec fn bytes(s: Seq<char>) -> int {
    encode_utf8(s).len() as int
}

/// An upper bound of `enum_items_tokens`, by bytes.
pub open spec fn enum_items_budget(items: Seq<Option<String>>) -> int
    decreases items.len(),
{
    if items.len() == 0 {
        0
    } else {
        enum_items_budget(items.drop_last()) + match items.last() {
            Some(s) => ENUM_ITEM + bytes(s@),
            None => 0,
        }
    }
}

/// An upper bound of `property_tokens`, by bytes.
pub open spec fn property_budget(p: ToolProperty) -> int {
    PROP_KEY + bytes(property_line(p)) + match p.enum_values {
        Some(items) => enum_items_budget(items@),
        None => 0,
    }
}

/// An upper bound of `properties_tokens`, by bytes.
pub open spec fn properties_budget(ps: Seq<ToolProperty>) -> int
    decreases ps.len(),
{
    if ps.len() == 0 {
        0
    } else {
        properties_budget(ps.drop_last()) + property_budget(ps.last())
    }
}

/// An upper bound of `tool_tokens`, by bytes.
pub open spec fn tool_budget(t: ToolSpec) -> int {
    FUNC_INIT + bytes(tool_line(t)) + PROP_INIT + match t.properties {
        Some(ps) => properties_budget(ps@),
        None => 0,
    }
}

/// An upper bound of `sum_tool_tokens`, by bytes.
pub open spec fn sum_tool_budget(ts: Seq<ToolSpec>) -> int
    decreases ts.len(),
{
    if ts.len() == 0 {
        0
    } else {
        sum_tool_budget(ts.drop_last()) + tool_budget(ts.last())
    }
}

/// An upper bound of `tools_tokens`, by bytes: counting stays within
/// `usize` when this does.
pub open spec fn tools_budget(ts: Seq<ToolSpec>) -> int {
    sum_tool_budget(ts) + FUNC_END
}

// ---------------------------------------------------------------------
// Messages and chats
// ---------------------------------------------------------------------

/// Tokens of the counted texts of a message's pieces.
pub open spec fn contents_tokens(cs: Seq<MessageContent>) -> int
    decreases cs.len(),
{
    if cs.len() == 0 {
        0
    } else {
        contents_tokens(cs.drop_last()) + o200k_token_count(content_text(cs.last()))
    }
}

/// Bytes of the counted texts of a message's pieces.
pub open spec fn contents_budget(cs: Seq<MessageContent>) -> int
    decreases cs.len(),
{
    if cs.len() == 0 {
        0
    } else {
        contents_budget(cs.drop_last()) + bytes(content_text(cs.last()))
    }
}

/// Tokens of a message: nothing when the agent does not see it, else its
/// framing and the tokens of its pieces.
pub open spec fn message_tokens(m: Message) -> int {
    if !m.agent_visible {
        0
    } else {
        TOKENS_PER_MESSAGE + contents_tokens(m.content@)
    }
}

/// An upper bound of `message_tokens`, by bytes.
pub open spec fn message_budget(m: Message) -> int {
    TOKENS_PER_MESSAGE + contents_budget(m.content@)
}

/// Tokens of a sequence of messages.
pub open spec fn messages_tokens(ms: Seq<Message>) -> int
    decreases ms.len(),
{
    if ms.len() == 0 {
        0
    } else {
        messages_tokens(ms.drop_last()) + message_tokens(ms.last())
    }
}

/// An upper bound of `messages_tokens`, by bytes.
pub open spec fn messages_budget(ms: Seq<Message>) -> int
    decreases ms.len(),
{
    if ms.len() == 0 {
        0
    } else {
        messages_budget(ms.drop_last()) + message_budget(ms.last())
    }
}

/// Tokens of a chat request: the system prompt when not empty, with its
/// framing; every message; the tool definitions; and the reply primer.
pub open spec fn chat_tokens(system_prompt: Seq<char>, ms: Seq<Message>, ts: Seq<ToolSpec>) -> int {
    (if system_prompt.len() > 0 {
        o200k_token_count(system_prompt) + TOKENS_PER_MESSAGE
    } else {
        0
    }) + messages_tokens(ms) + tools_tokens(ts) + REPLY_PRIMER
}

/// An upper bound of `chat_tokens`, by bytes.
pub open spec fn chat_budget(system_prompt: Seq<char>, ms: Seq<Message>, ts: Seq<ToolSpec>) -> int {
    bytes(system_prompt) + TOKENS_PER_MESSAGE + messages_budget(ms) + tools_budget(ts) + REPLY_PRIMER
}

/// Tokens of a sequence of texts.
pub open spec fn texts_tokens(rs: Seq<String>) -> int
    decreases rs.len(),
{
    if rs.len() == 0 {
        0
    } else {
        texts_tokens(rs.drop_last()) + o200k_token_count(rs.last()@)
    }
}

/// Bytes of a sequence of texts.
pub open spec fn texts_budget(rs: Seq<String>) -> int
    decreases rs.len(),
{
    if rs.len() == 0 {
        0
    } else {
        texts_budget(rs.drop_last()) + bytes(rs.last()@)
    }
}

// ---------------------------------------------------------------------
// What the tokenizer must encode
// ---------------------------------------------------------------------

/// Every string value of an `enum` is encoded.
pub open spec fn enum_items_encode(items: Seq<Option<String>>) -> bool {
    forall|k: int| 0 <= k < items.len() ==> (#[trigger] items[k] matches Some(s) ==> o200k_encodes(s@))
}

/// Every text by which a property is counted is encoded.
pub open spec fn property_encodes(p: ToolProperty) -> bool {
    &&& o200k_encodes(property_line(p))
    &&& p.enum_values matches Some(items) ==> enum_items_encode(items@)
}

/// Every text by which a tool is counted is encoded.
pub open spec fn tool_encodes(t: ToolSpec) -> bool {
    &&& o200k_encodes(tool_line(t))
    &&& t.properties matches Some(ps) ==> forall|k: int|
        0 <= k < ps@.len() ==> property_encodes(#[trigger] ps@[k])
}

/// Every tool of a list is encoded.
pub open spec fn tools_encode(ts: Seq<ToolSpec>) -> bool {
    forall|k: int| 0 <= k < ts.len() ==> tool_encodes(#[trigger] ts[k])
}

/// The counted text of every piece is encoded.
pub open spec fn contents_encode(cs: Seq<MessageContent>) -> bool {
    forall|k: int| 0 <= k < cs.len() ==> o200k_encodes(content_text(#[trigger] cs[k]))
}

/// A message that the agent sees has every piece encoded.
pub open spec fn message_encodes(m: Message) -> bool {
    m.agent_visible ==> contents_encode(m.content@)
}

/// Every message of a sequence is encoded.
pub open spec fn messages_encode(ms: Seq<Message>) -> bool {
    forall|k: int| 0 <= k < ms.len() ==> message_encodes(#[trigger] ms[k])
}

/// Everything that a chat request counts is encoded.
pub open spec fn chat_encodes(system_prompt: Seq<char>, ms: Seq<Message>, ts: Seq<ToolSpec>) -> bool {
    &&& system_prompt.len() > 0 ==> o200k_encodes(system_prompt)
    &&& messages_encode(ms)
    &&& tools_encode(ts)
}

/// Every text of a sequence is encoded.
pub open spec fn texts_encode(rs: Seq<String>) -> bool {
    forall|k: int| 0 <= k < rs.len() ==> o200k_encodes((#[trigger] rs[k])@)
}

} // verus!

verus! {


// ---------------------------------------------------------------------
// Prefix sums
// ---------------------------------------------------------------------

pub proof fn lemma_take_last<T>(s: Seq<T>, i: int)
    requires
        0 <= i < s.len(),
    ensures
        s.take(i + 1).drop_last() == s.take(i),
        s.take(i + 1).last() == s[i],
{
    assert(s.take(i + 1).drop_last() =~= s.take(i));
}

pub proof fn lemma_enum_items_budget_prefix(s: Seq<Option<String>>, i: int)
    requires
        0 <= i <= s.len(),
    ensures
        0 <= enum_items_budget(s.take(i)) <= enum_items_budget(s),
    decreases s.len(),
{
    if i == s.len() {
        assert(s.take(i) =~= s);
    }
    if s.len() > 0 {
        if i < s.len() {
            assert(s.drop_last().take(i) =~= s.take(i));
        }
        lemma_enum_items_budget_prefix(s.drop_last(), if i < s.len() { i } else { 0 });
    }
}

pub proof fn lemma_properties_budget_prefix(s: Seq<ToolProperty>, i: int)
    requires
        0 <= i <= s.len(),
    ensures
        0 <= properties_budget(s.take(i)) <= properties_budget(s),
    decreases s.len(),
{
    if i == s.len() {
        assert(s.take(i) =~= s);
    }
    if s.len() > 0 {
        if i < s.len() {
            assert(s.drop_last().take(i) =~= s.take(i));
        }
        lemma_properties_budget_prefix(s.drop_last(), if i < s.len() { i } else { 0 });
        let p = s.last();
        match p.enum_values {
            Some(items) => lemma_enum_items_budget_prefix(items@, 0),
            None => {},
        }
    }
}

pub proof fn lemma_sum_tool_budget_prefix(s: Seq<ToolSpec>, i: int)
    requires
        0 <= i <= s.len(),
    ensures
        0 <= sum_tool_budget(s.take(i)) <= sum_tool_budget(s),
    decreases s.len(),
{
    if i == s.len() {
        assert(s.take(i) =~= s);
    }
    if s.len() > 0 {
        if i < s.len() {
            assert(s.drop_last().take(i) =~= s.take(i));
        }
        lemma_sum_tool_budget_prefix(s.drop_last(), if i < s.len() { i } else { 0 });
        match s.last().properties {
            Some(ps) => lemma_properties_budget_prefix(ps@, 0),
            None => {},
        }
    }
}

pub proof fn lemma_enum_items_tokens_nonneg(items: Seq<Option<String>>)
    ensures
        enum_items_tokens(items) >= 0,
    decreases items.len(),
{
    if items.len() > 0 {
        lemma_enum_items_tokens_nonneg(items.drop_last());
    }
}

proof fn lemma_properties_tokens_nonneg(ps: Seq<ToolProperty>)
    ensures
        properties_tokens(ps) >= 0,
    decreases ps.len(),
{
    if ps.len() > 0 {
        lemma_properties_tokens_nonneg(ps.drop_last());
        match ps.last().enum_values {
            Some(items) => lemma_enum_items_tokens_nonneg(items@),
            None => {},
        }
    }
}

/// The tokens and the budget of a tool are never negative.
pub proof fn lemma_properties_nonneg(t: ToolSpec)
    ensures
        tool_tokens(t) >= 0,
        tool_budget(t) >= 0,
{
    match t.properties {
        Some(ps) => {
            lemma_properties_tokens_nonneg(ps@);
            lemma_properties_budget_prefix(ps@, 0);
        },
        None => {},
    }
}

pub proof fn lemma_contents_budget_prefix(s: Seq<MessageContent>, i: int)
    requires
        0 <= i <= s.len(),
    ensures
        0 <= contents_budget(s.take(i)) <= contents_budget(s),
    decreases s.len(),
{
    if i == s.len() {
        assert(s.take(i) =~= s);
    }
    if s.len() > 0 {
        if i < s.len() {
            assert(s.drop_last().take(i) =~= s.take(i));
        }
        lemma_contents_budget_prefix(s.drop_last(), if i < s.len() { i } else { 0 });
    }
}

pub proof fn lemma_messages_budget_prefix(s: Seq<Message>, i: int)
    requires
        0 <= i <= s.len(),
    ensures
        0 <= messages_budget(s.take(i)) <= messages_budget(s),
    decreases s.len(),
{
    if i == s.len() {
        assert(s.take(i) =~= s);
    }
    if s.len() > 0 {
        if i < s.len() {
            assert(s.drop_last().take(i) =~= s.take(i));
        }
        lemma_messages_budget_prefix(s.drop_last(), if i < s.len() { i } else { 0 });
        lemma_contents_budget_prefix(s.last().content@, 0);
    }
}

pub proof fn lemma_texts_budget_prefix(s: Seq<String>, i: int)
    requires
        0 <= i <= s.len(),
    ensures
        0 <= texts_budget(s.take(i)) <= texts_budget(s),
    decreases s.len(),
{
    if i == s.len() {
        assert(s.take(i) =~= s);
    }
    if s.len() > 0 {
        if i < s.len() {
            assert(s.drop_last().take(i) =~= s.take(i));
        }
        lemma_texts_budget_prefix(s.drop_last(), if i < s.len() { i } else { 0 });
    }
}

/// The line by which a property is counted.
pub fn property_line_of(p: &ToolProperty) -> (r: String)
    ensures
        r@ == property_line(*p),
{
    let mut line = p.name.clone();
    line.append(":");
    match &p.value_type {
        Some(t) => line.append(t.as_str()),
        None => {},
    }
    line.append(":");
    match &p.description {
        Some(d) => line.append(trim_end_dots_str(d.as_str())),
        None => {},
    }
    proof {
        assert(line@ =~= property_line(*p));
    }
    line
}

/// The line by which a tool is counted.
pub fn tool_line_of(t: &ToolSpec) -> (r: String)
    ensures
        r@ == tool_line(*t),
{
    let mut line = t.name.clone();
    line.append(":");
    match &t.description {
        Some(d) => line.append(trim_end_dots_str(d.as_str())),
        None => {},
    }
    proof {
        assert(line@ =~= tool_line(*t));
    }
    line
}

// ---------------------------------------------------------------------
// Laws of the tool count
// ---------------------------------------------------------------------

proof fn lemma_sum_tool_tokens_concat(a: Seq<ToolSpec>, b: Seq<ToolSpec>)
    ensures
        sum_tool_tokens(a + b) == sum_tool_tokens(a) + sum_tool_tokens(b),
    decreases b.len(),
{
    if b.len() == 0 {
        assert(a + b =~= a);
    } else {
        lemma_sum_tool_tokens_concat(a, b.drop_last());
        assert((a + b).drop_last() =~= a + b.drop_last());
    }
}

/// Counting two non-empty lists of tools together gives the two counts
/// less one closing of the list: `tools_tokens(a + b) + FUNC_END ==
/// tools_tokens(a) + tools_tokens(b)`.
pub proof fn lemma_tools_tokens_concat(a: Seq<ToolSpec>, b: Seq<ToolSpec>)
    requires
        a.len() > 0,
        b.len() > 0,
    ensures
        tools_tokens(a + b) + FUNC_END == tools_tokens(a) + tools_tokens(b),
{
    lemma_sum_tool_tokens_concat(a, b);
}

/// Adding a tool to a list adds at least the framing of one tool to its
/// count, so the counts of growing prefixes never decrease.
pub proof fn lemma_tools_tokens_grow(ts: Seq<ToolSpec>, t: ToolSpec)
    ensures
        tools_tokens(ts.push(t)) >= tools_tokens(ts) + FUNC_INIT,
{
    assert(ts.push(t).drop_last() =~= ts);
    assert(sum_tool_tokens(ts.push(t)) == sum_tool_tokens(ts) + tool_tokens(t));
    lemma_properties_nonneg(t);
    match t.properties {
        Some(ps) => {
            lemma_properties_tokens_nonneg(ps@);
        },
        None => {},
    }
    assert(tool_tokens(t) >= FUNC_INIT);
}

proof fn lemma_sum_tool_tokens_remove(s: Seq<ToolSpec>, i: int)
    requires
        0 <= i < s.len(),
    ensures
        sum_tool_tokens(s) == sum_tool_tokens(s.remove(i)) + tool_tokens(s[i]),
    decreases s.len(),
{
    if i == s.len() - 1 {
        assert(s.remove(i) =~= s.drop_last());
    } else {
        lemma_sum_tool_tokens_remove(s.drop_last(), i);
        assert(s.remove(i).drop_last() =~= s.drop_last().remove(i));
        assert(s.remove(i).last() == s.last());
    }
}

proof fn lemma_sum_tool_tokens_permutation(a: Seq<ToolSpec>, b: Seq<ToolSpec>)
    requires
        a.to_multiset() == b.to_multiset(),
    ensures
        sum_tool_tokens(a) == sum_tool_tokens(b),
    decreases a.len(),
{
    broadcast use vstd::seq_lib::group_to_multiset_ensures, vstd::multiset::group_multiset_axioms;

    if a.len() == 0 {
        assert(a.to_multiset().len() == a.len());
        assert(b.to_multiset().len() == b.len());
    } else {
        let x = a.last();
        let rest = a.drop_last();
        assert(rest.push(x) =~= a);
        assert(a.to_multiset().count(x) > 0);
        assert(b.contains(x));
        let i = choose|i: int| 0 <= i < b.len() && b[i] == x;
        assert(rest.to_multiset() =~= a.to_multiset().remove(x));
        assert(b.remove(i).to_multiset() == b.to_multiset().remove(x));
        lemma_sum_tool_tokens_permutation(rest, b.remove(i));
        lemma_sum_tool_tokens_remove(b, i);
    }
}

/// The count of a list of tools does not depend on their order: lists
/// that hold the same tools, each as often, count alike.
pub proof fn lemma_tools_tokens_permutation(a: Seq<ToolSpec>, b: Seq<ToolSpec>)
    requires
        a.to_multiset() == b.to_multiset(),
    ensures
        tools_tokens(a) == tools_tokens(b),
{
    broadcast use vstd::seq_lib::group_to_multiset_ensures;

    lemma_sum_tool_tokens_permutation(a, b);
    assert(a.len() == a.to_multiset().len());
    assert(b.len() == b.to_multiset().len());
}

proof fn lemma_sum_tool_tokens_pointwise(a: Seq<ToolSpec>, b: Seq<ToolSpec>)
    requires
        a.len() == b.len(),
        forall|k: int| 0 <= k < a.len() ==> tool_tokens(#[trigger] a[k]) == tool_tokens(b[k]),
    ensures
        sum_tool_tokens(a) == sum_tool_tokens(b),
    decreases a.len(),
{
    if a.len() > 0 {
        lemma_sum_tool_tokens_pointwise(a.drop_last(), b.drop_last());
        assert(tool_tokens(a[a.len() - 1]) == tool_tokens(b[a.len() - 1]));
    }
}

/// The periods that end a tool's description are not counted: a list in
/// which one description has lost them counts as the original list.
pub proof fn lemma_tools_tokens_trailing_periods(ts: Seq<ToolSpec>, u: Seq<ToolSpec>, k: int)
    requires
        0 <= k < ts.len(),
        u.len() == ts.len(),
        forall|j: int| 0 <= j < ts.len() && j != k ==> u[j] == ts[j],
        u[k].name == ts[k].name,
        u[k].properties == ts[k].properties,
        ts[k].description matches Some(d) && u[k].description matches Some(e) && e@
            == trim_end_dots(d@),
    ensures
        tools_tokens(u) == tools_tokens(ts),
{
    let d = ts[k].description->0;
    lemma_trim_end_dots_idempotent(d@);
    assert(tool_line(u[k]) =~= tool_line(ts[k]));
    assert forall|j: int| 0 <= j < u.len() implies tool_tokens(#[trigger] u[j]) == tool_tokens(
        ts[j],
    ) by {
        if j != k {
            assert(u[j] == ts[j]);
        }
    }
    lemma_sum_tool_tokens_pointwise(u, ts);
}

proof fn lemma_sum_tool_tokens_lower(ts: Seq<ToolSpec>)
    ensures
        sum_tool_tokens(ts) >= FUNC_INIT * ts.len(),
    decreases ts.len(),
{
    if ts.len() > 0 {
        lemma_sum_tool_tokens_lower(ts.drop_last());
        let t = ts.last();
        lemma_properties_nonneg(t);
        match t.properties {
            Some(ps) => {
                lemma_properties_tokens_nonneg(ps@);
            },
            None => {},
        }
        assert(tool_tokens(t) >= FUNC_INIT);
    }
}

/// A chat request counts its tool list in full: its count is the count
/// of the same request without tools plus the count of the tool list,
/// which is at least the framing of each tool and of the list when there
/// are tools. The system prompt, when there is one, adds its tokens and
/// the framing of a message; a request with nothing counts only the
/// reply primer.
pub proof fn lemma_chat_tokens_parts(p: Seq<char>, ms: Seq<Message>, ts: Seq<ToolSpec>)
    ensures
        chat_tokens(p, ms, ts) == chat_tokens(p, ms, Seq::empty()) + tools_tokens(ts),
        ts.len() > 0 ==> tools_tokens(ts) >= FUNC_INIT * ts.len() + FUNC_END,
        chat_tokens(p, ms, ts) == chat_tokens(Seq::empty(), ms, ts) + if p.len() > 0 {
            o200k_token_count(p) + TOKENS_PER_MESSAGE
        } else {
            0
        },
        chat_tokens(Seq::empty(), Seq::empty(), Seq::empty()) == REPLY_PRIMER,
{
    lemma_sum_tool_tokens_lower(ts);
}

/// Each message of a chat request adds its own count.
pub proof fn lemma_chat_tokens_push_message(p: Seq<char>, ms: Seq<Message>, m: Message, ts: Seq<ToolSpec>)
    ensures
        chat_tokens(p, ms.push(m), ts) == chat_tokens(p, ms, ts) + message_tokens(m),
{
    assert(ms.push(m).drop_last() =~= ms);
}

/// The line by which a property is counted is its name, a colon, its
/// type, a colon, and its description without the periods that end it.
pub proof fn lemma_property_line_shape(p: ToolProperty)
    ensures
        ({
            let head = p.name@ + ":"@ + text_or_empty(p.value_type) + ":"@;
            let line = property_line(p);
            let d = text_or_empty(p.description);
            let n = line.len() - head.len();
            &&& line.len() >= head.len()
            &&& line.subrange(0, head.len() as int) == head
            &&& 0 <= n <= d.len()
            &&& line.subrange(head.len() as int, line.len() as int) == d.subrange(0, n)
            &&& forall|i: int| n <= i < d.len() ==> d[i] == '.'
            &&& n > 0 ==> d[n - 1] != '.'
        }),
{
    let head = p.name@ + ":"@ + text_or_empty(p.value_type) + ":"@;
    let d = text_or_empty(p.description);
    lemma_trim_end_dots_shape(d);
    let line = property_line(p);
    assert(line =~= head + trim_end_dots(d));
    assert(line.subrange(0, head.len() as int) =~= head);
    assert(line.subrange(head.len() as int, line.len() as int) =~= trim_end_dots(d));
}

/// The line by which a tool is counted is its name, a colon, and its
/// description without the periods that end it.
pub proof fn lemma_tool_line_shape(t: ToolSpec)
    ensures
        ({
            let head = t.name@ + ":"@;
            let line = tool_line(t);
            let d = text_or_empty(t.description);
            let n = line.len() - head.len();
            &&& line.len() >= head.len()
            &&& line.subrange(0, head.len() as int) == head
            &&& 0 <= n <= d.len()
            &&& line.subrange(head.len() as int, line.len() as int) == d.subrange(0, n)
            &&& forall|i: int| n <= i < d.len() ==> d[i] == '.'
            &&& n > 0 ==> d[n - 1] != '.'
        }),
{
    let head = t.name@ + ":"@;
    let d = text_or_empty(t.description);
    lemma_trim_end_dots_shape(d);
    let line = tool_line(t);
    assert(line.subrange(0, head.len() as int) =~= head);
    assert(line.subrange(head.len() as int, line.len() as int) =~= trim_end_dots(d));
}

/// A property added to a tool that already has some adds exactly the
/// property's own count; the first property also adds the framing of the
/// property list.
pub proof fn lemma_tool_tokens_add_property(t: ToolSpec, u: ToolSpec, p: ToolProperty)
    requires
        u.name == t.name,
        u.description == t.description,
        u.properties is Some,
        t.properties is Some ==> u.properties->0@ == t.properties->0@.push(p),
        t.properties is None ==> u.properties->0@ == seq![p],
    ensures
        tool_tokens(u) == tool_tokens(t) + property_tokens(p) + if t.properties is None
            || t.properties->0@.len() == 0 {
            PROP_INIT as int
        } else {
            0
        },
{
    let vu = u.properties->0@;
    assert(vu.drop_last() =~= if t.properties is Some {
        t.properties->0@
    } else {
        Seq::<ToolProperty>::empty()
    });
    assert(tool_line(u) == tool_line(t));
    assert(vu.last() == p);
    assert(properties_tokens(vu) == properties_tokens(vu.drop_last()) + property_tokens(p));
    assert(properties_tokens(Seq::<ToolProperty>::empty()) == 0);
}

/// Counting a text again right after counting it gives the same count:
/// the count went to the front of the cache under the text's key.
pub proof fn lemma_count_again(entries: Seq<((usize, Seq<u8>), usize)>, text: Seq<char>, count: usize)
    requires
        entries.len() > 0,
        entries[0] == ((encode_utf8(text).len() as usize, blake3_digest_of(encode_utf8(text))), count),
    ensures
        cached_count(entries, text) == Some(count as int),
{
}

/// Counts tokens with the o200k_base tokenizer and remembers the counts of
/// the most recently counted texts.
pub struct TokenCounter {
    token_cache: LruCache<(usize, [u8; 32]), usize>,
}

impl TokenCounter {
    /// The cache entries, from most to least recently used.
    pub closed spec fn entries(&self) -> Seq<((usize, Seq<u8>), usize)> {
        token_cache_entries(self.token_cache)
    }

    /// The number of entries that the cache holds at most.
    pub closed spec fn capacity(&self) -> nat {
        token_cache_capacity(self.token_cache)
    }

    /// The counter is well formed: its cache holds at most
    /// `MAX_TOKEN_CACHE_SIZE` entries, each the count of a text with its key.
    pub open spec fn wf(&self) -> bool {
        &&& self.capacity() == MAX_TOKEN_CACHE_SIZE
        &&& self.entries().len() <= self.capacity()
        &&& all_entries_are_counts(self.entries())
    }

    /// A counter with an empty cache. Every tokenizer is the shared
    /// o200k_base instance, so this cannot fail.
    pub fn new() -> (r: Result<TokenCounter, String>)
        ensures
            r matches Ok(c) && c.wf() && c.entries().len() == 0,
    {
        let c = TokenCounter { token_cache: token_cache_new(MAX_TOKEN_CACHE_SIZE) };
        Ok(c)
    }

    /// The number of tokens of `text`: the cached count for its key when
    /// there is one (which becomes the most recently used entry), else the
    /// tokenizer's count, which is then cached; nothing, and the cache
    /// unchanged, when the text is not cached and the tokenizer fails.
    pub fn count_tokens(&mut self, text: &str) -> (r: Option<usize>)
        requires
            old(self).wf(),
        ensures
            final(self).wf(),
            match r {
                Some(n) => cached_count(old(self).entries(), text@) == Some(n as int),
                None => cached_count(old(self).entries(), text@) is None,
            },
            r matches Some(n) ==> n <= bytes(text@) && (text@.len() > 0 ==> n >= 1),
            o200k_encodes(text@) ==> r is Some,
            exact_for(old(self).entries(), set![text@]) ==> match r {
                Some(n) => o200k_encoding(text@) == Some(n as nat),
                None => !o200k_encodes(text@),
            },
            entries_from(final(self).entries(), old(self).entries(), set![text@]),
            ({
                let key = (encode_utf8(text@).len() as usize, blake3_digest_of(encode_utf8(text@)));
                let e = old(self).entries();
                let p = position_of(e, key);
                &&& p >= 0 ==> final(self).entries() == seq![e[p]] + e.remove(p)
                &&& p < 0 && r is Some ==> final(self).entries().len() == if e.len()
                    < MAX_TOKEN_CACHE_SIZE {
                    e.len() + 1
                } else {
                    e.len()
                }
                &&& r matches Some(n) ==> final(self).entries()[0] == (key, n)
                &&& r is None ==> final(self).entries() == e
            }),
    {
        let data = text.as_bytes();
        let len = data.len();
        let digest = blake3_digest(data);
        let key = (len, digest);
        let ghost kv = (len, digest@);
        let ghost e = self.entries();
        proof {
            lemma_position_of(e, kv);
        }
        match token_cache_get(&mut self.token_cache, &key) {
            Some(c) => {
                proof {
                    let p = position_of(e, kv);
                    let n = self.entries();
                    assert(entry_is_count(e[p]));
                    let t = choose|t: Seq<char>|
                        is_key_of(e[p].0, t) && o200k_encoding(t) == Some(e[p].1 as nat) && e[p].1
                            <= encode_utf8(t).len() && (t.len() > 0 ==> e[p].1 >= 1);
                    if text@.len() > 0 {
                        lemma_nonempty_bytes(text@);
                        assert(t.len() > 0);
                    }
                    if exact_for(e, set![text@]) {
                        assert(set![text@].contains(text@));
                        assert(is_key_of(e[p].0, text@));
                    }
                    assert forall|i: int| 1 <= i < n.len() implies exists|j: int|
                        0 <= j < e.len() && e[j] == #[trigger] n[i] by {
                        if i - 1 < p {
                            assert(n[i] == e[i - 1]);
                        } else {
                            assert(n[i] == e[i]);
                        }
                    }
                    lemma_counts_kept(e, n, e[p]);
                    assert forall|i: int| 0 <= i < n.len() implies e.contains(#[trigger] n[i]) by {
                        if i == 0 {
                            assert(e[p] == n[0]);
                        } else {
                            let j = choose|j: int| 0 <= j < e.len() && e[j] == n[i];
                        }
                    }
                }
                return Some(c);
            },
            None => {},
        }
        match count_o200k_tokens(text) {
            Some(count) => {
                token_cache_put(&mut self.token_cache, key, count);
                proof {
                    let n = self.entries();
                    let front = (kv, count);
                    assert(entry_is_count(front)) by {
                        assert(is_key_of(kv, text@));
                    }
                    assert forall|i: int| 1 <= i < n.len() implies exists|j: int|
                        0 <= j < e.len() && e[j] == #[trigger] n[i] by {
                        assert(n[i] == e[i - 1]);
                    }
                    lemma_counts_kept(e, n, front);
                    assert forall|i: int| 0 <= i < n.len() implies e.contains(#[trigger] n[i])
                        || exists|t: Seq<char>|
                        set![text@].contains(t) && is_key_of(n[i].0, t) && o200k_encoding(t) == Some(
                            n[i].1 as nat,
                        ) by {
                        if i == 0 {
                            assert(set![text@].contains(text@));
                            assert(is_key_of(n[0].0, text@));
                        } else {
                            assert(n[i] == e[i - 1]);
                        }
                    }
                }
                Some(count)
            },
            None => {
                proof {
                    lemma_entries_from_same(e, set![text@]);
                }
                None
            },
        }
    }

    /// Tokens of the string values of an `enum`.
    fn count_enum_items(&mut self, items: &Vec<Option<String>>) -> (r: Option<usize>)
        requires
            old(self).wf(),
            enum_items_budget(items@) <= usize::MAX,
        ensures
            final(self).wf(),
            enum_items_encode(items@) ==> r is Some,
            r matches Some(n) ==> n <= enum_items_budget(items@),
            r matches Some(n) ==> (exact_for(old(self).entries(), union_of(items@, enum_item_texts_fn()))
                ==> n == enum_items_tokens(items@)),
            r is Some ==> entries_from(
                final(self).entries(),
                old(self).entries(),
                union_of(items@, enum_item_texts_fn()),
            ),
    {
        let ghost e0 = self.entries();
        let ghost f = enum_item_texts_fn();
        let ghost all = Set::<Seq<char>>::empty().union(union_of(items@, f));
        proof {
            assert(all =~= union_of(items@, f));
            lemma_entries_from_same(e0, Set::empty());
            assert(Set::<Seq<char>>::empty().union(union_of(items@.take(0), f)) =~= Set::empty());
        }
        let mut total: usize = 0;
        let mut i: usize = 0;
        while i < items.len()
            invariant
                self.wf(),
                f == enum_item_texts_fn(),
                all == Set::<Seq<char>>::empty().union(union_of(items@, f)),
                i <= items.len(),
                enum_items_budget(items@) <= usize::MAX,
                total <= enum_items_budget(items@.take(i as int)),
                exact_for(e0, all) ==> total == enum_items_tokens(items@.take(i as int)),
                entries_from(self.entries(), e0, Set::<Seq<char>>::empty().union(union_of(items@.take(i as int), f))),
            decreases items.len() - i,
        {
            proof {
                lemma_take_last(items@, i as int);
                lemma_enum_items_budget_prefix(items@, i as int + 1);
            }
            let ghost cur = self.entries();
            proof {
                if exact_for(e0, all) {
                    lemma_step_exact(e0, cur, Set::empty(), items@, f, i as int);
                }
            }
            match &items[i] {
                Some(item) => {
                    total = total + ENUM_ITEM;
                    match self.count_tokens(item.as_str()) {
                        Some(c) => {
                            total = total + c;
                        },
                        None => {
                            proof {
                                assert(items@[i as int] matches Some(s) && !o200k_encodes(s@));
                            }
                            return None;
                        },
                    }
                },
                None => {
                    proof {
                        lemma_entries_from_same(cur, f(items@[i as int]));
                    }
                },
            }
            proof {
                lemma_step_entries(e0, cur, self.entries(), Set::empty(), items@, f, i as int);
            }
            i = i + 1;
        }
        proof {
            assert(items@.take(items.len() as int) =~= items@);
            assert(all =~= union_of(items@, f));
        }
        Some(total)
    }

    /// Tokens of one property of a tool's input schema.
    fn count_property(&mut self, p: &ToolProperty) -> (r: Option<usize>)
        requires
            old(self).wf(),
            property_budget(*p) <= usize::MAX,
        ensures
            final(self).wf(),
            property_encodes(*p) ==> r is Some,
            r matches Some(n) ==> n <= property_budget(*p),
            r matches Some(n) ==> (exact_for(old(self).entries(), property_texts(*p)) ==> n
                == property_tokens(*p)),
            r is Some ==> entries_from(final(self).entries(), old(self).entries(), property_texts(*p)),
    {
        let ghost e0 = self.entries();
        let ghost all = property_texts(*p);
        let line = property_line_of(p);
        proof {
            if p.enum_values is Some {
                lemma_enum_items_budget_prefix(p.enum_values->0@, 0);
            }
            lemma_entries_from_same(e0, Set::empty());
            if exact_for(e0, all) {
                lemma_exact_kept(e0, e0, Set::empty(), all, set![line@]);
            }
        }
        let mut total: usize = PROP_KEY;
        let c = match self.count_tokens(line.as_str()) {
            Some(c) => c,
            None => {
                return None;
            },
        };
        total = total + c;
        let ghost cur = self.entries();
        match &p.enum_values {
            Some(items) => {
                proof {
                    lemma_enum_items_budget_prefix(items@, 0);
                    if exact_for(e0, all) {
                        lemma_exact_kept(e0, cur, set![line@], all, union_of(items@, enum_item_texts_fn()));
                    }
                }
                total = total - ENUM_INIT;
                match self.count_enum_items(items) {
                    Some(e) => {
                        total = total + e;
                    },
                    None => {
                        return None;
                    },
                }
                proof {
                    lemma_entries_from_trans(e0, cur, self.entries(), set![line@], union_of(items@, enum_item_texts_fn()));
                }
            },
            None => {
                proof {
                    assert(all =~= set![line@]);
                }
            },
        }
        Some(total)
    }

    /// Tokens of one tool definition, without the closing of the list.
    fn count_tool(&mut self, t: &ToolSpec) -> (r: Option<usize>)
        requires
            old(self).wf(),
            tool_budget(*t) <= usize::MAX,
        ensures
            final(self).wf(),
            tool_encodes(*t) ==> r is Some,
            r matches Some(n) ==> FUNC_INIT <= n <= tool_budget(*t),
            r matches Some(n) ==> (exact_for(old(self).entries(), tool_texts(*t)) ==> n == tool_tokens(
                *t,
            )),
            r is Some ==> entries_from(final(self).entries(), old(self).entries(), tool_texts(*t)),
    {
        let ghost e0 = self.entries();
        let ghost all = tool_texts(*t);
        let ghost f = property_texts_fn();
        let line = tool_line_of(t);
        proof {
            if t.properties is Some {
                lemma_properties_budget_prefix(t.properties->0@, 0);
            }
            lemma_entries_from_same(e0, Set::empty());
            if exact_for(e0, all) {
                lemma_exact_kept(e0, e0, Set::empty(), all, set![line@]);
            }
        }
        let mut total: usize = FUNC_INIT;
        let c = match self.count_tokens(line.as_str()) {
            Some(c) => c,
            None => {
                return None;
            },
        };
        total = total + c;
        match &t.properties {
            Some(ps) => {
                proof {
                    assert(all == set![line@].union(union_of(ps@, f)));
                    assert(set![line@].union(union_of(ps@.take(0), f)) =~= set![line@]);
                }
                if ps.len() > 0 {
                    total = total + PROP_INIT;
                    let mut i: usize = 0;
                    while i < ps.len()
                        invariant
                            self.wf(),
                            i <= ps.len(),
                            tool_budget(*t) <= usize::MAX,
                            t.properties == Some(*ps),
                            total >= FUNC_INIT,
                            f == property_texts_fn(),
                            all == set![line@].union(union_of(ps@, f)),
                            line@ == tool_line(*t),
                            total <= FUNC_INIT + bytes(tool_line(*t)) + PROP_INIT + properties_budget(
                                ps@.take(i as int),
                            ),
                            exact_for(e0, all) ==> total == FUNC_INIT + o200k_token_count(
                                tool_line(*t),
                            ) + PROP_INIT + properties_tokens(ps@.take(i as int)),
                            entries_from(self.entries(), e0, set![line@].union(union_of(ps@.take(i as int), f))),
                        decreases ps.len() - i,
                    {
                        proof {
                            lemma_take_last(ps@, i as int);
                            lemma_properties_budget_prefix(ps@, i as int + 1);
                            lemma_properties_budget_prefix(ps@, i as int);
                            lemma_properties_budget_prefix(ps@.take(i as int + 1), i as int);
                        }
                        let ghost cur = self.entries();
                        proof {
                            if exact_for(e0, all) {
                                lemma_step_exact(e0, cur, set![line@], ps@, f, i as int);
                            }
                        }
                        match self.count_property(&ps[i]) {
                            Some(pc) => {
                                total = total + pc;
                            },
                            None => {
                                return None;
                            },
                        }
                        proof {
                            lemma_step_entries(e0, cur, self.entries(), set![line@], ps@, f, i as int);
                        }
                        i = i + 1;
                    }
                    proof {
                        assert(ps@.take(ps.len() as int) =~= ps@);
                    }
                } else {
                    proof {
                        assert(ps@.take(0) =~= ps@);
                    }
                }
            },
            None => {
                proof {
                    assert(all =~= set![line@]);
                }
            },
        }
        Some(total)
    }

    /// Tokens of a list of tool definitions: nothing when there are no
    /// tools, else each definition and the closing of the list.
    pub fn count_tokens_for_tools(&mut self, tools: &[ToolSpec]) -> (r: Option<usize>)
        requires
            old(self).wf(),
            tools_budget(tools@) <= usize::MAX,
        ensures
            final(self).wf(),
            tools@.len() == 0 ==> r == Some(0usize),
            tools_encode(tools@) ==> r is Some,
            r matches Some(n) ==> n <= tools_budget(tools@),
            r matches Some(n) ==> (tools@.len() > 0 ==> n >= FUNC_INIT * tools@.len() + FUNC_END),
            r matches Some(n) ==> (exact_for(old(self).entries(), tools_texts(tools@)) ==> n
                == tools_tokens(tools@)),
            r is Some ==> entries_from(final(self).entries(), old(self).entries(), tools_texts(tools@)),
    {
        let ghost e0 = self.entries();
        let ghost f = tool_texts_fn();
        let ghost all = Set::<Seq<char>>::empty().union(union_of(tools@, f));
        proof {
            assert(all =~= tools_texts(tools@));
            lemma_entries_from_same(e0, Set::empty());
            assert(Set::<Seq<char>>::empty().union(union_of(tools@.take(0), f)) =~= Set::empty());
        }
        let mut total: usize = 0;
        if tools.len() > 0 {
            let mut i: usize = 0;
            while i < tools.len()
                invariant
                    self.wf(),
                    f == tool_texts_fn(),
                    all == Set::<Seq<char>>::empty().union(union_of(tools@, f)),
                    i <= tools.len(),
                    tools_budget(tools@) <= usize::MAX,
                    total <= sum_tool_budget(tools@.take(i as int)),
                    total >= FUNC_INIT * i,
                    exact_for(e0, all) ==> total == sum_tool_tokens(tools@.take(i as int)),
                    entries_from(self.entries(), e0, Set::<Seq<char>>::empty().union(union_of(tools@.take(i as int), f))),
                decreases tools.len() - i,
            {
                proof {
                    lemma_take_last(tools@, i as int);
                    lemma_sum_tool_budget_prefix(tools@, i as int + 1);
                    lemma_sum_tool_budget_prefix(tools@.take(i as int + 1), i as int);
                }
                let ghost cur = self.entries();
                proof {
                    if exact_for(e0, all) {
                        lemma_step_exact(e0, cur, Set::empty(), tools@, f, i as int);
                    }
                }
                match self.count_tool(&tools[i]) {
                    Some(c) => {
                        total = total + c;
                    },
                    None => {
                        proof {
                            assert(!tool_encodes(tools@[i as int]));
                        }
                        return None;
                    },
                }
                proof {
                    lemma_step_entries(e0, cur, self.entries(), Set::empty(), tools@, f, i as int);
                }
                i = i + 1;
            }
            proof {
                assert(tools@.take(tools.len() as int) =~= tools@);
            }
            total = total + FUNC_END;
        }
        Some(total)
    }

    /// Tokens of a message: nothing when the agent does not see it, else
    /// the framing of a message and the tokens of each piece's text.
    pub fn count_message_tokens(&mut self, message: &Message) -> (r: Option<usize>)
        requires
            old(self).wf(),
            message_budget(*message) <= usize::MAX,
        ensures
            final(self).wf(),
            !message.agent_visible ==> r == Some(0usize),
            message_encodes(*message) ==> r is Some,
            r matches Some(n) ==> n <= message_budget(*message),
            r matches Some(n) ==> (exact_for(old(self).entries(), message_texts(*message)) ==> n
                == message_tokens(*message)),
            r is Some ==> entries_from(final(self).entries(), old(self).entries(), message_texts(*message)),
    {
        let ghost e0 = self.entries();
        let ghost f = content_texts_fn();
        proof {
            lemma_entries_from_same(e0, Set::empty());
        }
        if !message.agent_visible {
            proof {
                lemma_contents_budget_prefix(message.content@, 0);
            }
            return Some(0);
        }
        let ghost all = Set::<Seq<char>>::empty().union(union_of(message.content@, f));
        proof {
            assert(all =~= message_texts(*message));
            assert(Set::<Seq<char>>::empty().union(union_of(message.content@.take(0), f)) =~= Set::empty());
        }
        let mut total: usize = TOKENS_PER_MESSAGE;
        let mut i: usize = 0;
        while i < message.content.len()
            invariant
                self.wf(),
                message.agent_visible,
                i <= message.content.len(),
                message_budget(*message) <= usize::MAX,
                total <= TOKENS_PER_MESSAGE + contents_budget(message.content@.take(i as int)),
                f == content_texts_fn(),
                all == Set::<Seq<char>>::empty().union(union_of(message.content@, f)),
                exact_for(e0, all) ==> total == TOKENS_PER_MESSAGE + contents_tokens(
                    message.content@.take(i as int),
                ),
                entries_from(self.entries(), e0, Set::<Seq<char>>::empty().union(union_of(message.content@.take(i as int), f))),
            decreases message.content.len() - i,
        {
            proof {
                lemma_take_last(message.content@, i as int);
                lemma_contents_budget_prefix(message.content@, i as int + 1);
                lemma_contents_budget_prefix(message.content@.take(i as int + 1), i as int);
            }
            let ghost cur = self.entries();
            proof {
                if exact_for(e0, all) {
                    lemma_step_exact(e0, cur, Set::empty(), message.content@, f, i as int);
                }
            }
            let text = match message_content_token_text(&message.content[i]) {
                Some(t) => t,
                None => String::new(),
            };
            match self.count_tokens(text.as_str()) {
                Some(c) => {
                    total = total + c;
                },
                None => {
                    proof {
                        assert(!o200k_encodes(content_text(message.content@[i as int])));
                    }
                    return None;
                },
            }
            proof {
                lemma_step_entries(e0, cur, self.entries(), Set::empty(), message.content@, f, i as int);
            }
            i = i + 1;
        }
        proof {
            assert(message.content@.take(message.content.len() as int) =~= message.content@);
        }
        Some(total)
    }

    /// Tokens of a sequence of messages.
    fn count_messages(&mut self, messages: &[Message]) -> (r: Option<usize>)
        requires
            old(self).wf(),
            messages_budget(messages@) <= usize::MAX,
        ensures
            final(self).wf(),
            messages_encode(messages@) ==> r is Some,
            r matches Some(n) ==> n <= messages_budget(messages@),
            r matches Some(n) ==> (exact_for(old(self).entries(), union_of(messages@, message_texts_fn()))
                ==> n == messages_tokens(messages@)),
            r is Some ==> entries_from(
                final(self).entries(),
                old(self).entries(),
                union_of(messages@, message_texts_fn()),
            ),
    {
        let ghost e0 = self.entries();
        let ghost f = message_texts_fn();
        let ghost all = Set::<Seq<char>>::empty().union(union_of(messages@, f));
        proof {
            assert(all =~= union_of(messages@, f));
            lemma_entries_from_same(e0, Set::empty());
            assert(Set::<Seq<char>>::empty().union(union_of(messages@.take(0), f)) =~= Set::empty());
        }
        let mut total: usize = 0;
        let mut i: usize = 0;
        while i < messages.len()
            invariant
                self.wf(),
                i <= messages.len(),
                messages_budget(messages@) <= usize::MAX,
                total <= messages_budget(messages@.take(i as int)),
                f == message_texts_fn(),
                all == Set::<Seq<char>>::empty().union(union_of(messages@, f)),
                exact_for(e0, all) ==> total == messages_tokens(messages@.take(i as int)),
                entries_from(self.entries(), e0, Set::<Seq<char>>::empty().union(union_of(messages@.take(i as int), f))),
            decreases messages.len() - i,
        {
            proof {
                lemma_take_last(messages@, i as int);
                lemma_messages_budget_prefix(messages@, i as int + 1);
                lemma_messages_budget_prefix(messages@.take(i as int + 1), i as int);
            }
            let ghost cur = self.entries();
            proof {
                if exact_for(e0, all) {
                    lemma_step_exact(e0, cur, Set::empty(), messages@, f, i as int);
                }
            }
            match self.count_message_tokens(&messages[i]) {
                Some(c) => {
                    total = total + c;
                },
                None => {
                    proof {
                        assert(!message_encodes(messages@[i as int]));
                    }
                    return None;
                },
            }
            proof {
                lemma_step_entries(e0, cur, self.entries(), Set::empty(), messages@, f, i as int);
            }
            i = i + 1;
        }
        proof {
            assert(messages@.take(messages.len() as int) =~= messages@);
        }
        Some(total)
    }

    /// Tokens of a chat request: the system prompt with its framing when
    /// it is not empty, every message, the tool definitions when there are
    /// any, and the reply primer.
    pub fn count_chat_tokens(
        &mut self,
        system_prompt: &str,
        messages: &[Message],
        tools: &[ToolSpec],
    ) -> (r: Option<usize>)
        requires
            old(self).wf(),
            chat_budget(system_prompt@, messages@, tools@) <= usize::MAX,
        ensures
            final(self).wf(),
            chat_encodes(system_prompt@, messages@, tools@) ==> r is Some,
            r matches Some(n) ==> n <= chat_budget(system_prompt@, messages@, tools@),
            r matches Some(n) ==> (exact_for(
                old(self).entries(),
                chat_texts(system_prompt@, messages@, tools@),
            ) ==> n == chat_tokens(system_prompt@, messages@, tools@)),
            r is Some ==> entries_from(
                final(self).entries(),
                old(self).entries(),
                chat_texts(system_prompt@, messages@, tools@),
            ),
    {
        let ghost e0 = self.entries();
        let ghost all = chat_texts(system_prompt@, messages@, tools@);
        let ghost a = if system_prompt@.len() > 0 {
            set![system_prompt@]
        } else {
            Set::<Seq<char>>::empty()
        };
        let ghost m = union_of(messages@, message_texts_fn());
        let ghost t = tools_texts(tools@);
        proof {
            lemma_messages_budget_prefix(messages@, 0);
            lemma_sum_tool_budget_prefix(tools@, 0);
            lemma_entries_from_same(e0, Set::empty());
            lemma_entries_from_same(e0, a);
            if exact_for(e0, all) {
                lemma_exact_kept(e0, e0, Set::empty(), all, a);
            }
        }
        let mut total: usize = 0;
        if !system_prompt.is_empty() {
            match self.count_tokens(system_prompt) {
                Some(c) => {
                    total = total + c + TOKENS_PER_MESSAGE;
                },
                None => {
                    return None;
                },
            }
        }
        let ghost cur1 = self.entries();
        proof {
            if exact_for(e0, all) {
                lemma_exact_kept(e0, cur1, a, all, m);
            }
        }
        match self.count_messages(messages) {
            Some(mc) => {
                total = total + mc;
            },
            None => {
                return None;
            },
        }
        let ghost cur2 = self.entries();
        proof {
            lemma_entries_from_trans(e0, cur1, cur2, a, m);
            if exact_for(e0, all) {
                lemma_exact_kept(e0, cur2, a.union(m), all, t);
            }
        }
        if tools.len() > 0 {
            match self.count_tokens_for_tools(tools) {
                Some(tc) => {
                    total = total + tc;
                },
                None => {
                    return None;
                },
            }
            proof {
                lemma_entries_from_trans(e0, cur2, self.entries(), a.union(m), t);
            }
        } else {
            proof {
                assert(t =~= Set::<Seq<char>>::empty());
                assert(a.union(m).union(t) =~= a.union(m));
            }
        }
        total = total + REPLY_PRIMER;
        Some(total)
    }

    /// Tokens of a chat request and of each resource text.
    pub fn count_everything(
        &mut self,
        system_prompt: &str,
        messages: &[Message],
        tools: &[ToolSpec],
        resources: &[String],
    ) -> (r: Option<usize>)
        requires
            old(self).wf(),
            chat_budget(system_prompt@, messages@, tools@) + texts_budget(resources@) <= usize::MAX,
        ensures
            final(self).wf(),
            chat_encodes(system_prompt@, messages@, tools@) && texts_encode(resources@) ==> r is Some,
            r matches Some(n) ==> n <= chat_budget(system_prompt@, messages@, tools@) + texts_budget(
                resources@,
            ),
            r matches Some(n) ==> (exact_for(
                old(self).entries(),
                chat_texts(system_prompt@, messages@, tools@).union(
                    union_of(resources@, string_texts_fn()),
                ),
            ) ==> n == chat_tokens(system_prompt@, messages@, tools@) + texts_tokens(resources@)),
    {
        let ghost e0 = self.entries();
        let ghost base = chat_texts(system_prompt@, messages@, tools@);
        let ghost f = string_texts_fn();
        let ghost all = base.union(union_of(resources@, f));
        proof {
            lemma_texts_budget_prefix(resources@, 0);
            lemma_entries_from_same(e0, Set::empty());
            lemma_union_of_prefix(resources@, f, 0);
            if exact_for(e0, all) {
                lemma_exact_kept(e0, e0, Set::empty(), all, base);
            }
        }
        let mut total = match self.count_chat_tokens(system_prompt, messages, tools) {
            Some(t) => t,
            None => {
                return None;
            },
        };
        proof {
            assert(base.union(union_of(resources@.take(0), f)) =~= base);
        }
        let mut i: usize = 0;
        while i < resources.len()
            invariant
                self.wf(),
                i <= resources.len(),
                chat_budget(system_prompt@, messages@, tools@) + texts_budget(resources@)
                    <= usize::MAX,
                total <= chat_budget(system_prompt@, messages@, tools@) + texts_budget(
                    resources@.take(i as int),
                ),
                f == string_texts_fn(),
                base == chat_texts(system_prompt@, messages@, tools@),
                all == base.union(union_of(resources@, f)),
                exact_for(e0, all) ==> total == chat_tokens(system_prompt@, messages@, tools@)
                    + texts_tokens(resources@.take(i as int)),
                entries_from(self.entries(), e0, base.union(union_of(resources@.take(i as int), f))),
            decreases resources.len() - i,
        {
            proof {
                lemma_take_last(resources@, i as int);
                lemma_texts_budget_prefix(resources@, i as int + 1);
                lemma_texts_budget_prefix(resources@.take(i as int + 1), i as int);
            }
            let ghost cur = self.entries();
            proof {
                if exact_for(e0, all) {
                    lemma_step_exact(e0, cur, base, resources@, f, i as int);
                }
            }
            match self.count_tokens(resources[i].as_str()) {
                Some(c) => {
                    total = total + c;
                },
                None => {
                    proof {
                        assert(!o200k_encodes(resources@[i as int]@));
                    }
                    return None;
                },
            }
            proof {
                lemma_step_entries(e0, cur, self.entries(), base, resources@, f, i as int);
            }
            i = i + 1;
        }
        proof {
            assert(resources@.take(resources.len() as int) =~= resources@);
        }
        Some(total)
    }

    /// Forgets every cached count.
    pub fn clear_cache(&mut self)
        requires
            old(self).wf(),
        ensures
            final(self).wf(),
            final(self).entries().len() == 0,
    {
        token_cache_clear(&mut self.token_cache);
    }

    /// The number of cached counts.
    pub fn cache_size(&self) -> (r: usize)
        ensures
            r == self.entries().len(),
    {
        token_cache_len(&self.token_cache)
    }
}

/// A new token counter.
pub fn create_token_counter() -> (r: Result<TokenCounter, String>)
    ensures
        r matches Ok(c) && c.wf() && c.entries().len() == 0,
{
    TokenCounter::new()
}

} // verus!
