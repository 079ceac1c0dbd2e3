//! The outline of the two composite type expressions: where a key/value
//! container keeps its key and its value, and where a repetition with a count
//! keeps its element type and its count.

use vstd::prelude::*;
use vstd::string::StrSliceExecFns;
use crate::split::{find, find_from, find_in};
use crate::text::{
    chars_of, has_prefix, lemma_trim_start_shape, lemma_trimmed, skip_white, trim, trim_start,
    trimmed,
};

verus! {

/// Where `c` last occurs in `s`.
pub open spec fn last_index(s: Seq<char>, c: char) -> Option<nat>
    decreases s.len(),
{
    if s.len() == 0 {
        None
    } else if s.last() == c {
        Some((s.len() - 1) as nat)
    } else {
        last_index(s.drop_last(), c)
    }
}

/// The element text and the count text of a repetition with a count. The text
/// must end with `]`; the count is what stands between the last `[` and that
/// `]`, trimmed; the element is everything before that `[`, and may not be
/// empty. `None` for every other text.
pub open spec fn repetition_parts(t: Seq<char>) -> Option<(Seq<char>, Seq<char>)> {
    match last_index(t, '[') {
        Some(open) => if open > 0 && t.last() == ']' {
            Some((t.take(open as int), trimmed(t.subrange(open as int + 1, t.len() - 1))))
        } else {
            None
        },
        None => None,
    }
}

/// The key text and the value text of a key/value container. The text must be
/// the word `mapping`, white space or none, and a pair of parentheses that
/// reaches to its end; between them the key stands before the first `=>` and
/// the value after it, both trimmed, neither empty. `None` for every other
/// text.
pub open spec fn mapping_parts(t: Seq<char>) -> Option<(Seq<char>, Seq<char>)> {
    if !"mapping"@.is_prefix_of(t) {
        None
    } else {
        let rest = trim_start(t.skip("mapping"@.len() as int));
        if rest.len() < 2 || rest[0] != '(' || rest.last() != ')' {
            None
        } else {
            let body = rest.subrange(1, rest.len() - 1);
            match find(body, "=>"@) {
                Some(arrow) => {
                    let key = trimmed(body.take(arrow as int));
                    let value = trimmed(body.skip((arrow + "=>"@.len()) as int));
                    if key.len() > 0 && value.len() > 0 {
                        Some((key, value))
                    } else {
                        None
                    }
                },
                None => None,
            }
        }
    }
}

/// The last occurrence of a character is after every other one.
pub proof fn lemma_last_index(s: Seq<char>, c: char, k: int)
    requires
        0 <= k < s.len(),
        s[k] == c,
        forall|j: int| k < j < s.len() ==> s[j] != c,
    ensures
        last_index(s, c) == Some(k as nat),
    decreases s.len(),
{
    if k < s.len() - 1 {
        lemma_last_index(s.drop_last(), c, k);
    }
}

/// A character that occurs nowhere has no last occurrence.
pub proof fn lemma_last_index_none(s: Seq<char>, c: char)
    requires
        forall|j: int| 0 <= j < s.len() ==> s[j] != c,
    ensures
        last_index(s, c) is None,
    decreases s.len(),
{
    if s.len() > 0 {
        lemma_last_index_none(s.drop_last(), c);
    }
}

/// The last occurrence of a character, where there is one, is an occurrence with
/// none after it.
pub proof fn lemma_last_index_is_last(s: Seq<char>, c: char)
    ensures
        last_index(s, c) matches Some(k) ==> {
            &&& k < s.len()
            &&& s[k as int] == c
            &&& forall|j: int| k < j < s.len() ==> s[j] != c
        },
    decreases s.len(),
{
    if s.len() > 0 && s.last() != c {
        let init = s.drop_last();
        lemma_last_index_is_last(init, c);
        if let Some(k) = last_index(init, c) {
            assert(init[k as int] == s[k as int]);
            assert forall|j: int| k < j < s.len() implies s[j] != c by {
                if j < init.len() {
                    assert(init[j] == s[j]);
                }
            }
        }
    }
}

/// The element of a repetition is shorter than the repetition.
pub proof fn lemma_repetition_parts_shorter(t: Seq<char>)
    ensures
        repetition_parts(t) matches Some((elem, _)) ==> elem.len() < t.len(),
{
    lemma_last_index_is_last(t, '[');
}

/// The key and the value of a container are shorter than the container.
pub proof fn lemma_mapping_parts_shorter(t: Seq<char>)
    ensures
        mapping_parts(t) matches Some((key, value)) ==> key.len() < t.len() && value.len()
            < t.len(),
{
    if mapping_parts(t) is Some {
        let tail = t.skip("mapping"@.len() as int);
        let rest = trim_start(tail);
        let body = rest.subrange(1, rest.len() - 1);
        let arrow = find(body, "=>"@).unwrap();
        lemma_trim_start_shape(tail);
        lemma_find_within(body, "=>"@);
        lemma_trimmed(body.take(arrow as int));
        lemma_trimmed(body.skip((arrow + "=>"@.len()) as int));
    }
}

/// Where a text is found, it lies within the text it is found in.
pub proof fn lemma_find_within(s: Seq<char>, pattern: Seq<char>)
    ensures
        find(s, pattern) matches Some(at) ==> at + pattern.len() <= s.len(),
{
    lemma_find_from_within(s, pattern, 0);
}

/// Where a text is found from an index on, it lies within the text it is found
/// in.
pub proof fn lemma_find_from_within(s: Seq<char>, pattern: Seq<char>, from: nat)
    ensures
        find_from(s, pattern, from) matches Some(at) ==> at + pattern.len()
            <= s.len(),
    decreases s.len() - from,
{
    if from + pattern.len() <= s.len() && s.subrange(from as int, (from + pattern.len()) as int)
        != pattern {
        assert(pattern.len() == 0 ==> s.subrange(from as int, from as int) =~= pattern);
        lemma_find_from_within(s, pattern, from + 1);
    }
}

/// Where `c` last occurs in `chars`.
pub fn find_last(chars: &Vec<char>, c: char) -> (r: Option<usize>)
    ensures
        match r {
            Some(k) => last_index(chars@, c) == Some(k as nat) && k < chars.len() && chars@[k as int]
                == c,
            None => last_index(chars@, c) is None,
        },
{
    let mut i: usize = chars.len();
    while i > 0
        invariant
            i <= chars.len(),
            forall|j: int| i <= j < chars.len() ==> chars@[j] != c,
        decreases i,
    {
        i = i - 1;
        if chars[i] == c {
            proof {
                lemma_last_index(chars@, c, i as int);
            }
            return Some(i);
        }
    }
    proof {
        lemma_last_index_none(chars@, c);
    }
    None
}

/// The element text and the count text of the repetition `text`.
pub fn repetition_parts_of<'a>(text: &'a str) -> (r: Option<(&'a str, &'a str)>)
    ensures
        match r {
            Some((elem, size)) => repetition_parts(text@) == Some((elem@, size@)),
            None => repetition_parts(text@) is None,
        },
{
    let chars = chars_of(text);
    let n = chars.len();
    match find_last(&chars, '[') {
        Some(open) => {
            if open > 0 && chars[n - 1] == ']' {
                let elem = text.substring_char(0, open);
                let size = trim(text.substring_char(open + 1, n - 1));
                Some((elem, size))
            } else {
                None
            }
        },
        None => None,
    }
}

/// The key text and the value text of the container `text`.
pub fn mapping_parts_of<'a>(text: &'a str) -> (r: Option<(&'a str, &'a str)>)
    ensures
        match r {
            Some((key, value)) => mapping_parts(text@) == Some((key@, value@)),
            None => mapping_parts(text@) is None,
        },
{
    let chars = chars_of(text);
    if !has_prefix(&chars, "mapping") {
        return None;
    }
    let tail = text.substring_char("mapping".unicode_len(), chars.len());
    assert(tail@ =~= text@.skip("mapping"@.len() as int));
    let rest = skip_white(tail);
    let outer = chars_of(rest);
    let n = outer.len();
    if n < 2 || outer[0] != '(' || outer[n - 1] != ')' {
        return None;
    }
    let body = rest.substring_char(1, n - 1);
    let inner = chars_of(body);
    match find_in(&inner, "=>") {
        Some(arrow) => {
            let after = body.substring_char(arrow + "=>".unicode_len(), inner.len());
            assert(after@ =~= body@.skip(arrow + "=>"@.len()));
            let key = trim(body.substring_char(0, arrow));
            let value = trim(after);
            if key.unicode_len() > 0 && value.unicode_len() > 0 {
                Some((key, value))
            } else {
                None
            }
        },
        None => None,
    }
}

} // verus!
