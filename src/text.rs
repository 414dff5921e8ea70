//! Whitespace, trimming and splitting of command lines.

use vstd::prelude::*;

verus! {

/// The characters with the Unicode `White_Space` property.
pub open spec fn is_space(c: char) -> bool {
    ('\u{9}' <= c && c <= '\u{d}') || c == ' ' || c == '\u{85}' || c == '\u{a0}'
        || c == '\u{1680}' || ('\u{2000}' <= c && c <= '\u{200a}') || c == '\u{2028}'
        || c == '\u{2029}' || c == '\u{202f}' || c == '\u{205f}' || c == '\u{3000}'
}

/// The delimiter between pipeline stages.
pub open spec fn is_bar(c: char) -> bool {
    c == '|'
}

/// Relies on char::is_whitespace: true exactly for the `White_Space` characters.
#[verifier::external_body]
fn char_is_space(c: char) -> (r: bool)
    ensures
        r == is_space(c),
{
    c.is_whitespace()
}

/// `s` without its leading whitespace.
pub open spec fn trim_start(s: Seq<char>) -> Seq<char>
    decreases s.len(),
{
    if s.len() > 0 && is_space(s[0]) {
        trim_start(s.drop_first())
    } else {
        s
    }
}

/// `s` without its trailing whitespace.
pub open spec fn trim_end(s: Seq<char>) -> Seq<char>
    decreases s.len(),
{
    if s.len() > 0 && is_space(s.last()) {
        trim_end(s.drop_last())
    } else {
        s
    }
}

/// `s` without leading and trailing whitespace.
pub open spec fn trim(s: Seq<char>) -> Seq<char> {
    trim_end(trim_start(s))
}

/// The pieces of `s` between bars, where `cur` is the piece read so far.
pub open spec fn split_from(s: Seq<char>, cur: Seq<char>) -> Seq<Seq<char>>
    decreases s.len(),
{
    if s.len() == 0 {
        seq![cur]
    } else if is_bar(s[0]) {
        seq![cur] + split_from(s.drop_first(), Seq::empty())
    } else {
        split_from(s.drop_first(), cur.push(s[0]))
    }
}

/// The pieces of `s` between bars, in order; blank pieces included.
pub open spec fn split_bars(s: Seq<char>) -> Seq<Seq<char>> {
    split_from(s, Seq::empty())
}

/// The maximal runs of non-whitespace characters of `s`, where `cur` is the
/// run read so far.
pub open spec fn words_from(s: Seq<char>, cur: Seq<char>) -> Seq<Seq<char>>
    decreases s.len(),
{
    if s.len() == 0 {
        if cur.len() > 0 { seq![cur] } else { Seq::empty() }
    } else if is_space(s[0]) {
        (if cur.len() > 0 { seq![cur] } else { Seq::empty() }) + words_from(s.drop_first(), Seq::empty())
    } else {
        words_from(s.drop_first(), cur.push(s[0]))
    }
}

/// The whitespace-separated words of `s`, in order.
pub open spec fn words(s: Seq<char>) -> Seq<Seq<char>> {
    words_from(s, Seq::empty())
}

/// How many bars `s` holds.
pub open spec fn bar_count(s: Seq<char>) -> nat
    decreases s.len(),
{
    if s.len() == 0 {
        0
    } else {
        (if is_bar(s[0]) { 1nat } else { 0nat }) + bar_count(s.drop_first())
    }
}

/// The pieces `ps` joined back together with bars between them.
pub open spec fn join_bars(ps: Seq<Seq<char>>) -> Seq<char>
    decreases ps.len(),
{
    if ps.len() == 0 {
        Seq::empty()
    } else if ps.len() == 1 {
        ps[0]
    } else {
        ps[0] + seq!['|'] + join_bars(ps.drop_first())
    }
}

/// The length of the first run of non-whitespace characters of `s`.
pub open spec fn first_space(s: Seq<char>) -> nat
    decreases s.len(),
{
    if s.len() == 0 || is_space(s[0]) {
        0
    } else {
        1 + first_space(s.drop_first())
    }
}

proof fn lemma_split_from(s: Seq<char>, cur: Seq<char>)
    ensures
        split_from(s, cur).len() == bar_count(s) + 1,
        join_bars(split_from(s, cur)) == cur + s,
    decreases s.len(),
{
    if s.len() == 0 {
        assert(cur + s =~= cur);
    } else if is_bar(s[0]) {
        lemma_split_from(s.drop_first(), Seq::empty());
        let rest = split_from(s.drop_first(), Seq::empty());
        let all = seq![cur] + rest;
        assert(all.drop_first() =~= rest);
        assert(Seq::<char>::empty() + s.drop_first() =~= s.drop_first());
        assert(cur + seq!['|'] + s.drop_first() =~= cur + s);
    } else {
        lemma_split_from(s.drop_first(), cur.push(s[0]));
        assert(cur.push(s[0]) + s.drop_first() =~= cur + s);
    }
}

proof fn lemma_bar_count_last(s: Seq<char>)
    requires
        s.len() > 0,
    ensures
        bar_count(s) == bar_count(s.drop_last()) + (if is_bar(s.last()) { 1nat } else { 0nat }),
    decreases s.len(),
{
    if s.len() == 1 {
        assert(bar_count(s.drop_first()) == 0);
        assert(bar_count(s.drop_last()) == 0);
    } else {
        lemma_bar_count_last(s.drop_first());
        assert(s.drop_first().drop_last() =~= s.drop_last().drop_first());
        assert(s.drop_last()[0] == s[0]);
        assert(s.drop_first().last() == s.last());
    }
}

proof fn lemma_trim_start(s: Seq<char>)
    ensures
        bar_count(trim_start(s)) == bar_count(s),
        trim_start(s).len() > 0 ==> !is_space(trim_start(s)[0]),
    decreases s.len(),
{
    if s.len() > 0 && is_space(s[0]) {
        lemma_trim_start(s.drop_first());
    }
}

proof fn lemma_trim_end(s: Seq<char>)
    ensures
        bar_count(trim_end(s)) == bar_count(s),
        trim_end(s) =~= s.take(trim_end(s).len() as int),
        trim_end(s).len() <= s.len(),
    decreases s.len(),
{
    if s.len() > 0 && is_space(s.last()) {
        lemma_trim_end(s.drop_last());
        lemma_bar_count_last(s);
    }
}

/// Trimming removes only whitespace: the trimmed line holds as many bars as
/// the line, and a non-empty one starts with a non-whitespace character.
pub proof fn lemma_trim(s: Seq<char>)
    ensures
        bar_count(trim(s)) == bar_count(s),
        trim(s).len() > 0 ==> !is_space(trim(s)[0]),
{
    lemma_trim_start(s);
    lemma_trim_end(trim_start(s));
}

proof fn lemma_words_from_first(s: Seq<char>, cur: Seq<char>)
    requires
        cur.len() > 0 || (s.len() > 0 && !is_space(s[0])),
    ensures
        first_space(s) <= s.len(),
        words_from(s, cur).len() > 0,
        words_from(s, cur)[0] == cur + s.take(first_space(s) as int),
    decreases s.len(),
{
    if s.len() == 0 {
        assert(cur + s.take(0) =~= cur);
    } else if is_space(s[0]) {
        assert(cur + s.take(0) =~= cur);
    } else {
        lemma_words_from_first(s.drop_first(), cur.push(s[0]));
        assert(cur.push(s[0]) + s.drop_first().take(first_space(s.drop_first()) as int) =~= cur
            + s.take(first_space(s) as int));
    }
}

/// A line with `k` bars splits into `k + 1` stages, which joined back with
/// bars give the trimmed line again, in the same order.
pub proof fn law_stage_count(line: Seq<char>)
    ensures
        split_bars(trim(line)).len() == bar_count(line) + 1,
        join_bars(split_bars(trim(line))) == trim(line),
{
    lemma_trim(line);
    lemma_split_from(trim(line), Seq::empty());
    assert(Seq::<char>::empty() + trim(line) =~= trim(line));
}

/// The first word of a non-blank line is the trimmed line up to its first
/// whitespace.
pub proof fn law_first_word(line: Seq<char>)
    requires
        trim(line).len() > 0,
    ensures
        words(trim(line)).len() > 0,
        words(trim(line))[0] == trim(line).take(first_space(trim(line)) as int),
{
    lemma_trim(line);
    lemma_words_from_first(trim(line), Seq::empty());
    assert(Seq::<char>::empty() + trim(line).take(first_space(trim(line)) as int)
        =~= trim(line).take(first_space(trim(line)) as int));
}

/// Returns `s` with leading and trailing whitespace removed.
pub fn trim_line(s: &str) -> (r: String)
    ensures
        r@ == trim(s@),
{
    let n = s.unicode_len();
    let mut a: usize = 0;
    assert(s@.subrange(0, n as int) =~= s@);
    while a < n && char_is_space(s.get_char(a))
        invariant
            a <= n,
            n == s@.len(),
            trim_start(s@) == trim_start(s@.subrange(a as int, n as int)),
        decreases n - a,
    {
        assert(s@.subrange(a as int, n as int).drop_first() =~= s@.subrange(a + 1, n as int));
        a = a + 1;
    }
    let ghost t = s@.subrange(a as int, n as int);
    assert(trim_start(t) == t);
    let mut b: usize = n;
    while b > a && char_is_space(s.get_char(b - 1))
        invariant
            a <= b <= n,
            n == s@.len(),
            trim_end(t) == trim_end(s@.subrange(a as int, b as int)),
        decreases b,
    {
        assert(s@.subrange(a as int, b as int).drop_last() =~= s@.subrange(a as int, b - 1));
        b = b - 1;
    }
    assert(trim_end(s@.subrange(a as int, b as int)) == s@.subrange(a as int, b as int));
    s.substring_char(a, b).to_string()
}


/// Splits `s` on bars and trims each piece; blank pieces are kept, in place.
pub fn split_stages(s: &str) -> (r: Vec<String>)
    ensures
        r.len() == split_bars(s@).len(),
        forall|k: int| 0 <= k < r.len() ==> #[trigger] r[k]@ == trim(split_bars(s@)[k]),
{
    let n = s.unicode_len();
    let mut out: Vec<String> = Vec::new();
    let ghost mut done: Seq<Seq<char>> = Seq::empty();
    let mut start: usize = 0;
    let mut i: usize = 0;
    assert(s@.subrange(0, n as int) =~= s@);
    assert(s@.subrange(0, 0) =~= Seq::<char>::empty());
    while i < n
        invariant
            start <= i <= n,
            n == s@.len(),
            out.len() == done.len(),
            forall|k: int| 0 <= k < out.len() ==> #[trigger] out[k]@ == trim(done[k]),
            done + split_from(s@.subrange(i as int, n as int), s@.subrange(start as int, i as int))
                == split_bars(s@),
        decreases n - i,
    {
        let ghost rest = s@.subrange(i as int, n as int);
        let ghost cur = s@.subrange(start as int, i as int);
        assert(rest.drop_first() =~= s@.subrange(i + 1, n as int));
        let c = s.get_char(i);
        if c == '|' {
            let piece = trim_line(s.substring_char(start, i));
            out.push(piece);
            proof {
                assert(done.push(cur) + split_from(rest.drop_first(), Seq::empty()) =~= done + (
                seq![cur] + split_from(rest.drop_first(), Seq::empty())));
                done = done.push(cur);
                assert(s@.subrange(i + 1, i + 1) =~= Seq::<char>::empty());
            }
            start = i + 1;
        } else {
            assert(cur.push(c) =~= s@.subrange(start as int, i + 1));
        }
        i = i + 1;
    }
    let last = trim_line(s.substring_char(start, n));
    out.push(last);
    proof {
        let cur = s@.subrange(start as int, n as int);
        assert(done + seq![cur] =~= done.push(cur));
        done = done.push(cur);
    }
    out
}

/// Splits `s` into its whitespace-separated words.
pub fn split_words(s: &str) -> (r: Vec<String>)
    ensures
        r.len() == words(s@).len(),
        forall|k: int| 0 <= k < r.len() ==> #[trigger] r[k]@ == words(s@)[k],
{
    let n = s.unicode_len();
    let mut out: Vec<String> = Vec::new();
    let ghost mut done: Seq<Seq<char>> = Seq::empty();
    let mut start: usize = 0;
    let mut i: usize = 0;
    assert(s@.subrange(0, n as int) =~= s@);
    assert(s@.subrange(0, 0) =~= Seq::<char>::empty());
    while i < n
        invariant
            start <= i <= n,
            n == s@.len(),
            out.len() == done.len(),
            forall|k: int| 0 <= k < out.len() ==> #[trigger] out[k]@ == done[k],
            done + words_from(s@.subrange(i as int, n as int), s@.subrange(start as int, i as int))
                == words(s@),
        decreases n - i,
    {
        let ghost rest = s@.subrange(i as int, n as int);
        let ghost cur = s@.subrange(start as int, i as int);
        assert(rest.drop_first() =~= s@.subrange(i + 1, n as int));
        let c = s.get_char(i);
        if char_is_space(c) {
            if start < i {
                let w = s.substring_char(start, i).to_string();
                out.push(w);
                proof {
                    assert(done.push(cur) + words_from(rest.drop_first(), Seq::empty()) =~= done + (
                    seq![cur] + words_from(rest.drop_first(), Seq::empty())));
                    done = done.push(cur);
                }
            } else {
                assert(cur.len() == 0);
                assert(Seq::<Seq<char>>::empty() + words_from(rest.drop_first(), Seq::empty())
                    =~= words_from(rest.drop_first(), Seq::empty()));
            }
            assert(s@.subrange(i + 1, i + 1) =~= Seq::<char>::empty());
            start = i + 1;
        } else {
            assert(cur.push(c) =~= s@.subrange(start as int, i + 1));
        }
        i = i + 1;
    }
    if start < n {
        let w = s.substring_char(start, n).to_string();
        out.push(w);
        proof {
            let cur = s@.subrange(start as int, n as int);
            assert(done + seq![cur] =~= done.push(cur));
            done = done.push(cur);
        }
    } else {
        assert(done + Seq::<Seq<char>>::empty() =~= done);
    }
    out
}

} // verus!
