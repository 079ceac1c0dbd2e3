//! Cutting a text into lines and words, finding one text in another, and joining
//! texts.

use vstd::prelude::*;
use vstd::string::{StrSliceExecFns, StringExecFns};
use crate::text::{
    chars_of, is_space, is_whitespace, lemma_trim_start, lemma_trim_start_shape, trim_start,
};

verus! {

/// The texts that a list of string slices holds.
pub open spec fn texts(parts: Seq<&str>) -> Seq<Seq<char>> {
    parts.map_values(|part: &str| part@)
}

/// The number of characters of `s` before its first line feed.
pub open spec fn line_end(s: Seq<char>) -> nat
    decreases s.len(),
{
    if s.len() == 0 || s[0] == '\n' {
        0
    } else {
        1 + line_end(s.drop_first())
    }
}

/// `line` without the carriage return at its end, if it has one.
pub open spec fn strip_cr(line: Seq<char>) -> Seq<char> {
    if line.len() > 0 && line.last() == '\r' {
        line.drop_last()
    } else {
        line
    }
}

/// The lines of `s`. A line ends with a line feed, or with a carriage return and
/// a line feed, neither of which belongs to it; the last line may end with the
/// text instead.
pub open spec fn lines(s: Seq<char>) -> Seq<Seq<char>>
    decreases s.len(),
{
    if s.len() == 0 {
        Seq::empty()
    } else {
        let k = line_end(s);
        if k >= s.len() {
            seq![s]
        } else {
            seq![strip_cr(s.take(k as int))] + lines(s.skip(k as int + 1))
        }
    }
}

/// The number of characters of `s` before its first white space.
pub open spec fn word_end(s: Seq<char>) -> nat
    decreases s.len(),
{
    if s.len() == 0 || is_space(s[0]) {
        0
    } else {
        1 + word_end(s.drop_first())
    }
}

/// The words of `s`: its longest stretches without white space, in order.
pub open spec fn words(s: Seq<char>) -> Seq<Seq<char>>
    decreases s.len(),
{
    let t = trim_start(s);
    if t.len() == 0 {
        Seq::empty()
    } else {
        proof {
            lemma_trim_start_shape(s);
            lemma_word_end_within(t);
        }
        seq![t.take(word_end(t) as int)] + words(t.skip(word_end(t) as int))
    }
}

/// Where `pattern` first occurs in `s` at or after index `from`.
pub open spec fn find_from(s: Seq<char>, pattern: Seq<char>, from: nat) -> Option<nat>
    decreases s.len() - from,
{
    if from + pattern.len() > s.len() {
        None
    } else if s.subrange(from as int, (from + pattern.len()) as int) == pattern {
        Some(from)
    } else {
        proof {
            assert(pattern.len() == 0 ==> s.subrange(from as int, from as int) =~= pattern);
        }
        find_from(s, pattern, from + 1)
    }
}

/// Where `pattern` first occurs in `s`.
pub open spec fn find(s: Seq<char>, pattern: Seq<char>) -> Option<nat> {
    find_from(s, pattern, 0)
}

/// The texts of `parts` in order, with `sep` between each two of them.
pub open spec fn join(parts: Seq<Seq<char>>, sep: Seq<char>) -> Seq<char>
    decreases parts.len(),
{
    if parts.len() == 0 {
        Seq::empty()
    } else if parts.len() == 1 {
        parts[0]
    } else {
        join(parts.drop_last(), sep) + sep + parts.last()
    }
}

/// A first word ends within the text.
pub proof fn lemma_word_end_within(s: Seq<char>)
    ensures
        word_end(s) <= s.len(),
    decreases s.len(),
{
    if s.len() > 0 && !is_space(s[0]) {
        lemma_word_end_within(s.drop_first());
    }
}

/// The first line feed of a text is where its first line ends.
pub proof fn lemma_line_end(s: Seq<char>, k: int)
    requires
        0 <= k <= s.len(),
        forall|j: int| 0 <= j < k ==> s[j] != '\n',
        k < s.len() ==> s[k] == '\n',
    ensures
        line_end(s) == k,
    decreases k,
{
    if k > 0 {
        lemma_line_end(s.drop_first(), k - 1);
    }
}

/// The first white space of a text is where its first word ends.
pub proof fn lemma_word_end(s: Seq<char>, k: int)
    requires
        0 <= k <= s.len(),
        forall|j: int| 0 <= j < k ==> !is_space(#[trigger] s[j]),
        k < s.len() ==> is_space(s[k]),
    ensures
        word_end(s) == k,
    decreases k,
{
    if k > 0 {
        let rest = s.drop_first();
        assert forall|j: int| 0 <= j < k - 1 implies !is_space(#[trigger] rest[j]) by {
            assert(rest[j] == s[j + 1]);
        }
        lemma_word_end(rest, k - 1);
    }
}

/// The lines of `src`.
pub fn split_lines<'a>(src: &'a str) -> (r: Vec<&'a str>)
    ensures
        texts(r@) == lines(src@),
{
    let chars = chars_of(src);
    let n = chars.len();
    let mut out: Vec<&'a str> = Vec::new();
    let mut p: usize = 0;
    assert(src@.skip(0) =~= src@);
    while p < n
        invariant
            p <= n,
            n == chars.len(),
            chars@ == src@,
            texts(out@) + lines(src@.skip(p as int)) == lines(src@),
        decreases n - p,
    {
        let ghost rest = src@.skip(p as int);
        let ghost before = texts(out@);
        let mut k: usize = p;
        while k < n && chars[k] != '\n'
            invariant
                p <= k <= n,
                n == chars.len(),
                forall|j: int| p <= j < k ==> chars@[j] != '\n',
            decreases n - k,
        {
            k = k + 1;
        }
        proof {
            assert forall|j: int| 0 <= j < k - p implies rest[j] != '\n' by {
                assert(rest[j] == chars@[j + p]);
            }
            lemma_line_end(rest, k - p);
        }
        if k == n {
            let line = src.substring_char(p, n);
            out.push(line);
            proof {
                assert(line@ =~= rest);
                assert(texts(out@) =~= before.push(rest));
                assert(lines(src@.skip(n as int)) =~= Seq::<Seq<char>>::empty());
            }
            p = n;
        } else {
            let end = if k > p && chars[k - 1] == '\r' {
                k - 1
            } else {
                k
            };
            let line = src.substring_char(p, end);
            out.push(line);
            proof {
                let whole = rest.take(k - p);
                assert(k > p ==> whole.last() == chars@[k - 1]);
                assert(line@ =~= strip_cr(whole));
                assert(rest.skip(k - p + 1) =~= src@.skip(k + 1));
                assert(texts(out@) =~= before.push(line@));
                assert(before + (seq![line@] + lines(src@.skip(k + 1))) =~= before.push(line@)
                    + lines(src@.skip(k + 1)));
            }
            p = k + 1;
        }
    }
    out
}

/// The words of `s`.
pub fn split_words<'a>(s: &'a str) -> (r: Vec<&'a str>)
    ensures
        texts(r@) == words(s@),
{
    let chars = chars_of(s);
    let n = chars.len();
    let mut out: Vec<&'a str> = Vec::new();
    let mut p: usize = 0;
    assert(s@.skip(0) =~= s@);
    loop
        invariant
            p <= n,
            n == chars.len(),
            chars@ == s@,
            texts(out@) + words(s@.skip(p as int)) == words(s@),
        ensures
            texts(out@) == words(s@),
        decreases n - p,
    {
        let ghost rest = s@.skip(p as int);
        let ghost before = texts(out@);
        let mut a: usize = p;
        while a < n && is_whitespace(chars[a])
            invariant
                p <= a <= n,
                n == chars.len(),
                forall|j: int| p <= j < a ==> is_space(#[trigger] chars@[j]),
            decreases n - a,
        {
            a = a + 1;
        }
        proof {
            assert forall|j: int| 0 <= j < a - p implies is_space(#[trigger] rest[j]) by {
                assert(rest[j] == chars@[j + p]);
            }
            lemma_trim_start(rest, a - p);
            assert(rest.skip(a - p) =~= s@.skip(a as int));
        }
        if a == n {
            assert(words(rest) =~= Seq::<Seq<char>>::empty());
            break;
        }
        let mut b: usize = a + 1;
        while b < n && !is_whitespace(chars[b])
            invariant
                a < b <= n,
                n == chars.len(),
                forall|j: int| a <= j < b ==> !is_space(#[trigger] chars@[j]),
            decreases n - b,
        {
            b = b + 1;
        }
        let word = s.substring_char(a, b);
        out.push(word);
        proof {
            let t = s@.skip(a as int);
            assert forall|j: int| 0 <= j < b - a implies !is_space(#[trigger] t[j]) by {
                assert(t[j] == chars@[j + a]);
            }
            lemma_word_end(t, b - a);
            assert(t.take(b - a) =~= word@);
            assert(t.skip(b - a) =~= s@.skip(b as int));
            assert(texts(out@) =~= before.push(word@));
            assert(before + (seq![word@] + words(s@.skip(b as int))) =~= before.push(word@) + words(
                s@.skip(b as int),
            ));
        }
        p = b;
    }
    out
}

/// Where `pattern` first occurs in `chars`.
pub fn find_in(chars: &Vec<char>, pattern: &str) -> (r: Option<usize>)
    ensures
        match r {
            Some(i) => find(chars@, pattern@) == Some(i as nat) && i + pattern@.len()
                <= chars.len(),
            None => find(chars@, pattern@) is None,
        },
{
    let pat = chars_of(pattern);
    let m = pat.len();
    let n = chars.len();
    if m > n {
        return None;
    }
    let mut i: usize = 0;
    while i <= n - m
        invariant
            m == pat.len(),
            n == chars.len(),
            m <= n,
            pat@ == pattern@,
            find_from(chars@, pat@, i as nat) == find(chars@, pat@),
        decreases n - i,
    {
        let mut j: usize = 0;
        while j < m && chars[i + j] == pat[j]
            invariant
                j <= m,
                i + m <= n,
                m == pat.len(),
                n == chars.len(),
                forall|k: int| 0 <= k < j ==> chars@[i + k] == pat@[k],
            decreases m - j,
        {
            j = j + 1;
        }
        if j == m {
            assert(chars@.subrange(i as int, i + m) =~= pat@);
            return Some(i);
        }
        assert(chars@.subrange(i as int, i + m)[j as int] != pat@[j as int]);
        i = i + 1;
    }
    None
}

/// The first `count` of `parts`, with `sep` between each two of them.
pub fn join_first(parts: &Vec<&str>, count: usize, sep: &str) -> (r: String)
    requires
        count <= parts.len(),
    ensures
        r@ == join(texts(parts@).take(count as int), sep@),
{
    let mut out = String::new();
    let mut i: usize = 0;
    while i < count
        invariant
            i <= count <= parts.len(),
            out@ == join(texts(parts@).take(i as int), sep@),
        decreases count - i,
    {
        let ghost next = texts(parts@).take(i + 1);
        assert(next.drop_last() =~= texts(parts@).take(i as int));
        assert(next.last() == parts@[i as int]@);
        if i > 0 {
            out.append(sep);
        }
        out.append(parts[i]);
        assert(out@ =~= join(next, sep@));
        i = i + 1;
    }
    out
}

} // verus!
