//! Character-level text operations used by the prompt and report code:
//! previews, tag sanitisation, decimal rendering, trimming, searching
//! and joining.
use vstd::prelude::*;
use vstd::string::*;

verus! {

broadcast use vstd::string::group_string_axioms;

/// Longest text, in characters, that a preview shows unabridged.
pub const MAX_PREVIEW_CHARS: usize = 2000;

// ---------------------------------------------------------------------
// Specifications
// ---------------------------------------------------------------------

/// The ASCII digit for `d` (`d < 10`).
pub open spec fn digit_char(d: nat) -> char {
    ((48 + d) as u32) as char
}

/// The decimal rendering of `n`, without sign or leading zeros.
pub open spec fn decimal(n: nat) -> Seq<char>
    decreases n,
{
    if n < 10 {
        seq![digit_char(n)]
    } else {
        decimal(n / 10).push(digit_char(n % 10))
    }
}

/// Characters of the Unicode "Tags" block, U+E0000 to U+E007F, which can
/// smuggle invisible instructions into a prompt.
pub open spec fn is_unicode_tag(c: char) -> bool {
    0xE0000 <= (c as u32) && (c as u32) <= 0xE007F
}

/// `s` with every Unicode tag character removed.
pub open spec fn without_tags(s: Seq<char>) -> Seq<char>
    decreases s.len(),
{
    if s.len() == 0 {
        s
    } else if is_unicode_tag(s.last()) {
        without_tags(s.drop_last())
    } else {
        without_tags(s.drop_last()).push(s.last())
    }
}

/// The suffix that a preview appends to a text longer than
/// `MAX_PREVIEW_CHARS` characters.
pub open spec fn preview_suffix(extra: nat) -> Seq<char> {
    "\u{2026} (+"@ + decimal(extra) + " more chars)"@
}

/// A preview of `t`: the text itself when it has at most
/// `MAX_PREVIEW_CHARS` characters, otherwise its first
/// `MAX_PREVIEW_CHARS` characters followed by how many more there are.
pub open spec fn preview_of(t: Seq<char>) -> Seq<char> {
    if t.len() <= MAX_PREVIEW_CHARS {
        t
    } else {
        t.take(MAX_PREVIEW_CHARS as int) + preview_suffix((t.len() - MAX_PREVIEW_CHARS) as nat)
    }
}

/// `p` is a prefix of `s`.
pub open spec fn is_prefix_of(p: Seq<char>, s: Seq<char>) -> bool {
    p.len() <= s.len() && s.subrange(0, p.len() as int) == p
}

/// `n` occurs in `h` as a contiguous run starting at `i`.
pub open spec fn occurs_at(h: Seq<char>, n: Seq<char>, i: int) -> bool {
    0 <= i && i + n.len() <= h.len() && h.subrange(i, i + n.len()) == n
}

/// `n` occurs somewhere in `h` as a contiguous run.
pub open spec fn contains_seq(h: Seq<char>, n: Seq<char>) -> bool {
    exists|i: int| occurs_at(h, n, i)
}

/// `s` with all trailing `'.'` characters removed.
pub open spec fn trim_end_dots(s: Seq<char>) -> Seq<char>
    decreases s.len(),
{
    if s.len() > 0 && s.last() == '.' {
        trim_end_dots(s.drop_last())
    } else {
        s
    }
}

/// A text without its ending periods ends in none, so trimming it again
/// changes nothing.
pub proof fn lemma_trim_end_dots_idempotent(s: Seq<char>)
    ensures
        !(trim_end_dots(s).len() > 0 && trim_end_dots(s).last() == '.'),
        trim_end_dots(trim_end_dots(s)) == trim_end_dots(s),
    decreases s.len(),
{
    if s.len() > 0 && s.last() == '.' {
        lemma_trim_end_dots_idempotent(s.drop_last());
    }
}

/// Trimming the ending periods keeps a prefix of the text, drops only
/// periods, and leaves no period at the end.
pub proof fn lemma_trim_end_dots_shape(s: Seq<char>)
    ensures
        trim_end_dots(s).len() <= s.len(),
        s.subrange(0, trim_end_dots(s).len() as int) == trim_end_dots(s),
        forall|i: int| trim_end_dots(s).len() <= i < s.len() ==> s[i] == '.',
        trim_end_dots(s).len() > 0 ==> trim_end_dots(s).last() != '.',
    decreases s.len(),
{
    if s.len() > 0 && s.last() == '.' {
        lemma_trim_end_dots_shape(s.drop_last());
        assert forall|i: int| trim_end_dots(s).len() <= i < s.len() implies s[i] == '.' by {
            if i < s.len() - 1 {
                assert(s.drop_last()[i] == s[i]);
            }
        }
        assert(s.drop_last().subrange(0, trim_end_dots(s).len() as int) =~= s.subrange(
            0,
            trim_end_dots(s).len() as int,
        ));
    } else {
        assert(s.subrange(0, s.len() as int) =~= s);
    }
}

/// Characters with the Unicode `White_Space` property.
pub open spec fn is_white_space(c: char) -> bool {
    let u = c as u32;
    (0x9 <= u && u <= 0xD) || u == 0x20 || u == 0x85 || u == 0xA0 || u == 0x1680
        || (0x2000 <= u && u <= 0x200A) || u == 0x2028 || u == 0x2029 || u == 0x202F
        || u == 0x205F || u == 0x3000
}

/// `s` without its leading white space.
pub open spec fn trim_start_ws(s: Seq<char>) -> Seq<char>
    decreases s.len(),
{
    if s.len() > 0 && is_white_space(s[0]) {
        trim_start_ws(s.drop_first())
    } else {
        s
    }
}

/// `s` without its trailing white space.
pub open spec fn trim_end_ws(s: Seq<char>) -> Seq<char>
    decreases s.len(),
{
    if s.len() > 0 && is_white_space(s.last()) {
        trim_end_ws(s.drop_last())
    } else {
        s
    }
}

/// `s` without leading and trailing white space.
pub open spec fn trim_ws(s: Seq<char>) -> Seq<char> {
    trim_end_ws(trim_start_ws(s))
}

/// The character sequences of a list of strings.
pub open spec fn views_of(list: Seq<String>) -> Seq<Seq<char>> {
    list.map_values(|v: String| v@)
}

/// The elements of `list` joined with `sep` between consecutive elements.
pub open spec fn join_seqs(list: Seq<Seq<char>>, sep: Seq<char>) -> Seq<char>
    decreases list.len(),
{
    if list.len() == 0 {
        Seq::empty()
    } else if list.len() == 1 {
        list[0]
    } else {
        join_seqs(list.drop_last(), sep) + sep + list.last()
    }
}

// ---------------------------------------------------------------------
// Lemmas
// ---------------------------------------------------------------------

pub proof fn lemma_take_succ(s: Seq<char>, i: int)
    requires
        0 <= i < s.len(),
    ensures
        s.take(i + 1).drop_last() == s.take(i),
        s.take(i + 1).last() == s[i],
{
    assert(s.take(i + 1).drop_last() =~= s.take(i));
}

/// A text without tag characters is left unchanged by sanitising.
pub proof fn lemma_without_tags_identity(s: Seq<char>)
    requires
        forall|i: int| 0 <= i < s.len() ==> !is_unicode_tag(#[trigger] s[i]),
    ensures
        without_tags(s) == s,
    decreases s.len(),
{
    if s.len() > 0 {
        lemma_without_tags_identity(s.drop_last());
        assert(without_tags(s.drop_last()).push(s.last()) =~= s);
    }
}

/// Sanitising distributes over concatenation.
pub proof fn lemma_without_tags_concat(a: Seq<char>, b: Seq<char>)
    ensures
        without_tags(a + b) == without_tags(a) + without_tags(b),
    decreases b.len(),
{
    if b.len() == 0 {
        assert(a + b =~= a);
        assert(without_tags(a) + without_tags(b) =~= without_tags(a));
    } else {
        assert((a + b).drop_last() =~= a + b.drop_last());
        lemma_without_tags_concat(a, b.drop_last());
        if is_unicode_tag(b.last()) {
        } else {
            assert(without_tags(a) + without_tags(b.drop_last()).push(b.last()) =~= (without_tags(a)
                + without_tags(b.drop_last())).push(b.last()));
        }
    }
}

/// No tag character survives sanitising.
pub proof fn lemma_without_tags_has_no_tags(s: Seq<char>)
    ensures
        forall|i: int| 0 <= i < without_tags(s).len() ==> !is_unicode_tag(#[trigger] without_tags(s)[i]),
    decreases s.len(),
{
    if s.len() > 0 {
        lemma_without_tags_has_no_tags(s.drop_last());
        let w = without_tags(s.drop_last());
        assert forall|i: int| 0 <= i < without_tags(s).len() implies !is_unicode_tag(
            #[trigger] without_tags(s)[i],
        ) by {
            if !is_unicode_tag(s.last()) && i < w.len() {
                assert(without_tags(s)[i] == w[i]);
            }
        }
    }
}

/// Sanitising twice is sanitising once.
pub proof fn lemma_without_tags_idempotent(s: Seq<char>)
    ensures
        without_tags(without_tags(s)) == without_tags(s),
{
    lemma_without_tags_has_no_tags(s);
    lemma_without_tags_identity(without_tags(s));
}

/// A decimal rendering is never empty and has only ASCII digits.
pub proof fn lemma_decimal_digits(n: nat)
    ensures
        decimal(n).len() >= 1,
        forall|i: int| 0 <= i < decimal(n).len() ==> '0' <= #[trigger] decimal(n)[i] <= '9',
    decreases n,
{
    if n >= 10 {
        lemma_decimal_digits(n / 10);
    }
}

// ---------------------------------------------------------------------
// Executable functions
// ---------------------------------------------------------------------

/// The characters of `s`, in order.
pub fn chars_of(s: &str) -> (v: Vec<char>)
    ensures
        v@ == s@,
{
    let n = s.unicode_len();
    let mut v: Vec<char> = Vec::with_capacity(n);
    let mut i: usize = 0;
    while i < n
        invariant
            n == s@.len(),
            i <= n,
            v@ == s@.take(i as int),
        decreases n - i,
    {
        let c = s.get_char(i);
        v.push(c);
        proof {
            lemma_take_succ(s@, i as int);
            assert(v@ =~= s@.take(i as int + 1));
        }
        i = i + 1;
    }
    proof {
        assert(s@.take(n as int) =~= s@);
    }
    v
}

/// The one-character text holding the digit `d`.
fn digit_str(d: usize) -> (r: &'static str)
    requires
        d < 10,
    ensures
        r@ == seq![digit_char(d as nat)],
{
    let digits = "0123456789";
    proof {
        reveal_strlit("0123456789");
    }
    let r = digits.substring_char(d, d + 1);
    proof {
        assert(r@ =~= seq![digits@[d as int]]);
        assert(digits@[d as int] == digit_char(d as nat)) by {
            if d == 0 {
            } else if d == 1 {
            } else if d == 2 {
            } else if d == 3 {
            } else if d == 4 {
            } else if d == 5 {
            } else if d == 6 {
            } else if d == 7 {
            } else if d == 8 {
            } else {
            }
        }
    }
    r
}

/// The decimal rendering of `n`, as `usize`'s `Display` writes it.
pub fn usize_to_decimal(n: usize) -> (r: String)
    ensures
        r@ == decimal(n as nat),
    decreases n,
{
    if n < 10 {
        String::from_str(digit_str(n))
    } else {
        let mut r = usize_to_decimal(n / 10);
        r.append(digit_str(n % 10));
        r
    }
}

/// `text` with every character of the Unicode "Tags" block removed; all
/// other characters, including other non-ASCII ones, are kept in order.
pub fn sanitize_unicode_tags(text: &str) -> (r: String)
    ensures
        r@ == without_tags(text@),
{
    let cs = chars_of(text);
    let n = cs.len();
    let mut out = String::new();
    let mut run_start: usize = 0;
    let mut i: usize = 0;
    while i < n
        invariant
            n == text@.len(),
            cs@ == text@,
            run_start <= i <= n,
            out@ + text@.subrange(run_start as int, i as int) == without_tags(text@.take(i as int)),
        decreases n - i,
    {
        proof {
            lemma_take_succ(text@, i as int);
        }
        if is_tag_char(cs[i]) {
            let run = text.substring_char(run_start, i);
            out.append(run);
            run_start = i + 1;
            proof {
                assert(text@.subrange(run_start as int, i as int + 1) =~= Seq::<char>::empty());
                assert(out@ + text@.subrange(run_start as int, i as int + 1) =~= out@);
            }
        } else {
            proof {
                assert(text@.subrange(run_start as int, i as int + 1) =~= text@.subrange(
                    run_start as int,
                    i as int,
                ).push(text@[i as int]));
            }
        }
        i = i + 1;
    }
    let run = text.substring_char(run_start, n);
    out.append(run);
    proof {
        assert(text@.take(n as int) =~= text@);
    }
    out
}

/// Whether `c` is in the Unicode "Tags" block.
pub fn is_tag_char(c: char) -> (r: bool)
    ensures
        r == is_unicode_tag(c),
{
    let u = c as u32;
    0xE0000 <= u && u <= 0xE007F
}

/// The preview of `text` that the context report shows.
pub fn preview(text: &str) -> (r: String)
    ensures
        r@ == preview_of(text@),
{
    let count = text.unicode_len();
    if count <= MAX_PREVIEW_CHARS {
        return String::from_str(text);
    }
    let kept = text.substring_char(0, MAX_PREVIEW_CHARS);
    let mut r = String::from_str(kept);
    r.append("\u{2026} (+");
    let extra = usize_to_decimal(count - MAX_PREVIEW_CHARS);
    r.append(extra.as_str());
    r.append(" more chars)");
    proof {
        assert(r@ =~= preview_of(text@));
    }
    r
}

/// Whether `needle` occurs at position `i` of `hay`.
fn matches_at(hay: &Vec<char>, needle: &Vec<char>, i: usize) -> (r: bool)
    requires
        i + needle.len() <= hay.len(),
    ensures
        r == occurs_at(hay@, needle@, i as int),
{
    let m = needle.len();
    let mut j: usize = 0;
    while j < m
        invariant
            m == needle.len(),
            i + m <= hay.len(),
            j <= m,
            hay@.subrange(i as int, i + j) == needle@.take(j as int),
        decreases m - j,
    {
        if hay[i + j] != needle[j] {
            proof {
                assert(hay@.subrange(i as int, i + m)[j as int] != needle@[j as int]);
            }
            return false;
        }
        proof {
            assert(hay@.subrange(i as int, i + j + 1) =~= needle@.take(j as int + 1));
        }
        j = j + 1;
    }
    proof {
        assert(needle@.take(m as int) =~= needle@);
    }
    true
}

/// Whether `needle` occurs in `hay`.
pub fn contains_str(hay: &str, needle: &str) -> (r: bool)
    ensures
        r == contains_seq(hay@, needle@),
{
    let h = chars_of(hay);
    let nd = chars_of(needle);
    if nd.len() == 0 {
        proof {
            assert(hay@.subrange(0, 0) =~= needle@);
            assert(occurs_at(hay@, needle@, 0));
        }
        return true;
    }
    if nd.len() > h.len() {
        proof {
            assert forall|i: int| !occurs_at(hay@, needle@, i) by {}
        }
        return false;
    }
    let last = h.len() - nd.len();
    let mut i: usize = 0;
    while i <= last
        invariant
            h@ == hay@,
            nd@ == needle@,
            last + nd.len() == h.len(),
            nd.len() > 0,
            forall|k: int| 0 <= k < i ==> !occurs_at(hay@, needle@, k),
        decreases last + 1 - i,
    {
        if matches_at(&h, &nd, i) {
            return true;
        }
        i = i + 1;
    }
    proof {
        assert forall|k: int| !occurs_at(hay@, needle@, k) by {
            if 0 <= k < i {
            }
        }
    }
    false
}

/// Whether `s` starts with `prefix`.
pub fn starts_with_str(s: &str, prefix: &str) -> (r: bool)
    ensures
        r == is_prefix_of(prefix@, s@),
{
    let h = chars_of(s);
    let p = chars_of(prefix);
    if p.len() > h.len() {
        return false;
    }
    let r = matches_at(&h, &p, 0);
    r
}

/// `s` with all trailing `'.'` removed.
pub fn trim_end_dots_str(s: &str) -> (r: &str)
    ensures
        r@ == trim_end_dots(s@),
{
    let cs = chars_of(s);
    let mut end = cs.len();
    assert(s@.take(end as int) =~= s@);
    while end > 0 && cs[end - 1] == '.'
        invariant
            cs@ == s@,
            end <= cs.len(),
            trim_end_dots(s@) == trim_end_dots(s@.take(end as int)),
        decreases end,
    {
        proof {
            assert(s@.take(end as int).drop_last() =~= s@.take(end as int - 1));
        }
        end = end - 1;
    }
    proof {
        let t = s@.take(end as int);
        if end > 0 {
            assert(t.last() == cs@[end as int - 1]);
        }
    }
    s.substring_char(0, end)
}

/// Whether `c` has the Unicode `White_Space` property.
pub fn is_white_space_char(c: char) -> (r: bool)
    ensures
        r == is_white_space(c),
{
    let u = c as u32;
    (0x9 <= u && u <= 0xD) || u == 0x20 || u == 0x85 || u == 0xA0 || u == 0x1680 || (0x2000 <= u
        && u <= 0x200A) || u == 0x2028 || u == 0x2029 || u == 0x202F || u == 0x205F || u == 0x3000
}

/// `s` without leading and trailing white space.
pub fn trim_str(s: &str) -> (r: String)
    ensures
        r@ == trim_ws(s@),
{
    let cs = chars_of(s);
    let n = cs.len();
    let mut start: usize = 0;
    assert(s@.subrange(0, n as int) =~= s@);
    while start < n && is_white_space_char(cs[start])
        invariant
            cs@ == s@,
            n == cs.len(),
            start <= n,
            trim_start_ws(s@) == trim_start_ws(s@.subrange(start as int, n as int)),
        decreases n - start,
    {
        proof {
            assert(s@.subrange(start as int, n as int).drop_first() =~= s@.subrange(
                start as int + 1,
                n as int,
            ));
        }
        start = start + 1;
    }
    proof {
        assert(s@.subrange(0, n as int) =~= s@);
    }
    let ghost t = s@.subrange(start as int, n as int);
    assert(trim_start_ws(s@) == t);
    let mut end = n;
    while end > start && is_white_space_char(cs[end - 1])
        invariant
            cs@ == s@,
            n == cs.len(),
            start <= end <= n,
            t == s@.subrange(start as int, n as int),
            trim_end_ws(t) == trim_end_ws(s@.subrange(start as int, end as int)),
        decreases end,
    {
        proof {
            assert(s@.subrange(start as int, end as int).drop_last() =~= s@.subrange(
                start as int,
                end as int - 1,
            ));
        }
        end = end - 1;
    }
    proof {
        if start < end {
            assert(s@.subrange(start as int, end as int).last() == cs@[end as int - 1]);
        } else {
            assert(s@.subrange(start as int, end as int).len() == 0);
        }
    }
    String::from_str(s.substring_char(start, end))
}

/// The texts of `list` joined with `sep` between consecutive elements.
pub fn join_strings(list: &Vec<String>, sep: &str) -> (r: String)
    ensures
        r@ == join_seqs(views_of(list@), sep@),
{
    let ghost views = views_of(list@);
    let mut r = String::new();
    let mut i: usize = 0;
    while i < list.len()
        invariant
            views == views_of(list@),
            i <= list.len(),
            r@ == join_seqs(views.take(i as int), sep@),
        decreases list.len() - i,
    {
        proof {
            assert(views.take(i as int + 1).drop_last() =~= views.take(i as int));
        }
        if i != 0 {
            r.append(sep);
        } else {
            assert(views.take(1) =~= seq![views[0]]);
        }
        r.append(list[i].as_str());
        i = i + 1;
    }
    proof {
        assert(views.take(list.len() as int) =~= views);
    }
    r
}

} // verus!

verus! {

/// Whether two texts are equal.
pub fn str_equal(a: &str, b: &str) -> (r: bool)
    ensures
        r == (a@ == b@),
{
    let x = chars_of(a);
    let y = chars_of(b);
    if x.len() != y.len() {
        return false;
    }
    let r = matches_at(&x, &y, 0);
    proof {
        assert(a@.subrange(0, y.len() as int) =~= a@);
    }
    r
}

} // verus!
