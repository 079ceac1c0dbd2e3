//! The grammar of type expressions.

use vstd::prelude::*;
use vstd::string::StrSliceExecFns;
use crate::decimal::{canonical_number, count_number, parse_decimal};
use crate::pattern::{capture_pair, captured_pair, FIXED_ARRAY_REGEX, MAPPING_REGEX};
use crate::shape::{
    lemma_mapping_parts_shorter, lemma_repetition_parts_shorter, mapping_parts, mapping_parts_of,
    repetition_parts, repetition_parts_of,
};
use crate::text::{
    chars_of, has_char, has_prefix, has_suffix, lemma_trimmed, same_chars, same_text, trim, trimmed,
};
use crate::types::{valid_width, ParseError, ParseErrorModel, SolType, TypeModel};

verus! {

/// The outcome of reading a type expression.
pub type Parsed = Result<TypeModel, ParseErrorModel>;

/// The model of an outcome of reading a type expression.
pub open spec fn parsed_model(r: Result<SolType, ParseError>) -> Parsed {
    match r {
        Ok(t) => Ok(t@),
        Err(e) => Err(e@),
    }
}

/// The number written after `prefix` in `t`, where `t` is `prefix` followed by a
/// number without leading zeros.
pub open spec fn suffix_number(t: Seq<char>, prefix: Seq<char>) -> Option<nat> {
    if prefix.is_prefix_of(t) {
        canonical_number(t.skip(prefix.len() as int))
    } else {
        None
    }
}

/// The length that `t` names, where `t` is `bytes1` to `bytes32`.
pub open spec fn byte_length(t: Seq<char>) -> Option<u8> {
    match suffix_number(t, "bytes"@) {
        Some(n) => if 1 <= n <= 32 {
            Some(n as u8)
        } else {
            None
        },
        None => None,
    }
}

/// The width that `t` names, where `t` is `prefix` followed by a multiple of 8
/// from 8 to 256.
pub open spec fn bit_width(t: Seq<char>, prefix: Seq<char>) -> Option<u16> {
    match suffix_number(t, prefix) {
        Some(w) => if valid_width(w as int) {
            Some(w as u16)
        } else {
            None
        },
        None => None,
    }
}

/// The elementary type that the keyword `t` names; `None` where `t` is no
/// keyword.
pub open spec fn keyword(t: Seq<char>) -> Option<TypeModel> {
    if t == "uint"@ {
        Some(TypeModel::Uint(256))
    } else if t == "int"@ {
        Some(TypeModel::Int(256))
    } else if t == "address"@ {
        Some(TypeModel::Address)
    } else if t == "bool"@ {
        Some(TypeModel::Bool)
    } else if t == "bytes"@ {
        Some(TypeModel::BytesArbitrary)
    } else if byte_length(t) is Some {
        Some(TypeModel::Bytes(byte_length(t).unwrap()))
    } else if bit_width(t, "uint"@) is Some {
        Some(TypeModel::Uint(bit_width(t, "uint"@).unwrap()))
    } else if bit_width(t, "int"@) is Some {
        Some(TypeModel::Int(bit_width(t, "int"@).unwrap()))
    } else {
        None
    }
}

/// What a type expression means. The text is trimmed; then the first of these
/// that applies decides: a keyword; a key/value container, where the text
/// starts with `mapping`; a repetition of any length, where it ends with `[]`; a
/// repetition with a count, where it holds both `[` and `]`; else the name of a
/// record. A container and a repetition with a count take in the whole text:
/// key, value and element are read as type expressions in turn, and a text
/// with anything left over is malformed.
pub open spec fn parse(text: Seq<char>) -> Parsed
    decreases text.len(), 1nat,
{
    let t = trimmed(text);
    if keyword(t) is Some {
        Ok(keyword(t).unwrap())
    } else if "mapping"@.is_prefix_of(t) {
        proof {
            lemma_trimmed(text);
        }
        mapping_of(t, captured_pair(MAPPING_REGEX@, t, "key_type"@, "value_type"@))
    } else if "[]"@.is_suffix_of(t) {
        proof {
            lemma_trimmed(text);
            reveal_strlit("[]");
        }
        match parse(t.take(t.len() - 2)) {
            Ok(elem) => Ok(TypeModel::Array(Box::new(elem))),
            Err(e) => Err(e),
        }
    } else if t.contains('[') && t.contains(']') {
        proof {
            lemma_trimmed(text);
        }
        fixed_array_of(t, captured_pair(FIXED_ARRAY_REGEX@, t, "type"@, "size"@))
    } else {
        Ok(TypeModel::Custom2(t))
    }
}

/// The key/value container that `text` spells, given the key and the value that
/// the grammar found in it; `groups` is `None` where the grammar did not match.
/// The text must have the outline of a container from its first character to its
/// last, and the grammar must have found the very key and value of that outline:
/// any other text is malformed. Key and value are read as type expressions, the
/// key first.
pub open spec fn mapping_of(text: Seq<char>, groups: Option<(Seq<char>, Seq<char>)>) -> Parsed
    decreases text.len(), 0nat,
{
    match mapping_parts(text) {
        Some((key, value)) => if groups == Some((key, value)) {
            proof {
                lemma_mapping_parts_shorter(text);
            }
            match parse(key) {
                Ok(k) => match parse(value) {
                    Ok(v) => Ok(TypeModel::Mapping(Box::new(k), Box::new(v))),
                    Err(e) => Err(e),
                },
                Err(e) => Err(e),
            }
        } else {
            Err(ParseErrorModel::MalformedType(text))
        },
        None => Err(ParseErrorModel::MalformedType(text)),
    }
}

/// The repetition that `text` spells, given the element type and the count that
/// the grammar found in it; `groups` is `None` where the grammar did not match.
/// The text must end with a bracket pair, and the grammar must have found the
/// very count in that last pair and the very element before it: any other text
/// is malformed. The count is read first, then the element as a type
/// expression.
pub open spec fn fixed_array_of(text: Seq<char>, groups: Option<(Seq<char>, Seq<char>)>) -> Parsed
    decreases text.len(), 0nat,
{
    match repetition_parts(text) {
        Some((elem, size)) => if groups == Some((elem, size)) {
            match count_number(size) {
                Some(count) => {
                    proof {
                        lemma_repetition_parts_shorter(text);
                    }
                    match parse(elem) {
                        Ok(e) => Ok(TypeModel::FixedArray(Box::new(e), count)),
                        Err(e) => Err(e),
                    }
                },
                None => Err(ParseErrorModel::InvalidLiteral(size)),
            }
        } else {
            Err(ParseErrorModel::MalformedType(text))
        },
        None => Err(ParseErrorModel::MalformedType(text)),
    }
}

/// Whether `chars` is the text `word`.
fn is_word(chars: &Vec<char>, word: &str) -> (r: bool)
    ensures
        r == (chars@ == word@),
{
    let w = chars_of(word);
    same_chars(chars, &w)
}

/// The number written after `prefix` in `chars`, where it is at most `max`.
fn number_after(chars: &Vec<char>, prefix: &str, max: u64) -> (r: Option<u64>)
    ensures
        match r {
            Some(n) => suffix_number(chars@, prefix@) == Some(n as nat) && n <= max,
            None => suffix_number(chars@, prefix@) matches Some(n) ==> n > max,
        },
{
    if !has_prefix(chars, prefix) {
        return None;
    }
    let start = prefix.unicode_len();
    let end = chars.len();
    assert(chars@.skip(start as int) =~= chars@.subrange(start as int, end as int));
    if start == end || (end - start > 1 && chars[start] == '0') {
        return None;
    }
    match parse_decimal(chars, start, end) {
        Some(n) => if n <= max {
            Some(n)
        } else {
            None
        },
        None => None,
    }
}

/// The elementary type that the keyword `chars` names.
fn keyword_type(chars: &Vec<char>) -> (r: Option<SolType>)
    ensures
        match r {
            Some(t) => keyword(chars@) == Some(t@) && t@.wf(),
            None => keyword(chars@) is None,
        },
{
    if is_word(chars, "uint") {
        return Some(SolType::Uint(256));
    }
    if is_word(chars, "int") {
        return Some(SolType::Int(256));
    }
    if is_word(chars, "address") {
        return Some(SolType::Address);
    }
    if is_word(chars, "bool") {
        return Some(SolType::Bool);
    }
    if is_word(chars, "bytes") {
        return Some(SolType::BytesArbitrary);
    }
    if let Some(n) = number_after(chars, "bytes", 32) {
        if n >= 1 {
            return Some(SolType::Bytes(n as u8));
        }
    }
    if let Some(w) = number_after(chars, "uint", 256) {
        if w >= 8 && w % 8 == 0 {
            return Some(SolType::Uint(w as u16));
        }
    }
    if let Some(w) = number_after(chars, "int", 256) {
        if w >= 8 && w % 8 == 0 {
            return Some(SolType::Int(w as u16));
        }
    }
    None
}

/// Reads the type expression `text`.
pub fn parse_type(text: &str) -> (r: Result<SolType, ParseError>)
    ensures
        parsed_model(r) == parse(text@),
        r matches Ok(t) ==> t@.wf(),
    decreases text@.len(), 1nat,
{
    let t = trim(text);
    proof {
        lemma_trimmed(text@);
    }
    let chars = chars_of(t);
    if let Some(elementary) = keyword_type(&chars) {
        return Ok(elementary);
    }
    if has_prefix(&chars, "mapping") {
        mapping_from(t, capture_pair(MAPPING_REGEX, t, "key_type", "value_type"))
    } else if has_suffix(&chars, "[]") {
        proof {
            reveal_strlit("[]");
        }
        let elem = parse_type(t.substring_char(0, chars.len() - 2))?;
        Ok(SolType::Array(Box::new(elem)))
    } else if has_char(&chars, '[') && has_char(&chars, ']') {
        fixed_array_from(t, capture_pair(FIXED_ARRAY_REGEX, t, "type", "size"))
    } else {
        Ok(SolType::Custom2(t.to_owned()))
    }
}

/// The texts of a pair of strings.
pub open spec fn pair_texts(groups: Option<(String, String)>) -> Option<(Seq<char>, Seq<char>)> {
    match groups {
        Some((first, second)) => Some((first@, second@)),
        None => None,
    }
}

/// Whether the grammar found exactly the two parts `first` and `second`.
fn found(groups: &Option<(String, String)>, first: &str, second: &str) -> (r: bool)
    ensures
        r == (pair_texts(*groups) == Some((first@, second@))),
{
    match groups {
        Some((a, b)) => same_text(a.as_str(), first) && same_text(b.as_str(), second),
        None => false,
    }
}

/// Builds the key/value container that `text` spells from the key and the value
/// that the grammar found in it.
pub fn mapping_from(text: &str, groups: Option<(String, String)>) -> (r: Result<
    SolType,
    ParseError,
>)
    ensures
        parsed_model(r) == mapping_of(text@, pair_texts(groups)),
        r matches Ok(t) ==> t@.wf(),
    decreases text@.len(), 0nat,
{
    match mapping_parts_of(text) {
        Some((key, value)) => {
            if found(&groups, key, value) {
                proof {
                    lemma_mapping_parts_shorter(text@);
                }
                let k = parse_type(key)?;
                let v = parse_type(value)?;
                Ok(SolType::Mapping(Box::new(k), Box::new(v)))
            } else {
                Err(ParseError::MalformedType(text.to_owned()))
            }
        },
        None => Err(ParseError::MalformedType(text.to_owned())),
    }
}

/// Builds the repetition that `text` spells from the element type and the count
/// that the grammar found in it.
pub fn fixed_array_from(text: &str, groups: Option<(String, String)>) -> (r: Result<
    SolType,
    ParseError,
>)
    ensures
        parsed_model(r) == fixed_array_of(text@, pair_texts(groups)),
        r matches Ok(t) ==> t@.wf(),
    decreases text@.len(), 0nat,
{
    match repetition_parts_of(text) {
        Some((elem, size)) => {
            if found(&groups, elem, size) {
                let digits = chars_of(size);
                assert(digits@.subrange(0, digits.len() as int) =~= digits@);
                match parse_decimal(&digits, 0, digits.len()) {
                    Some(count) => {
                        proof {
                            lemma_repetition_parts_shorter(text@);
                        }
                        let e = parse_type(elem)?;
                        Ok(SolType::FixedArray(Box::new(e), count))
                    },
                    None => Err(ParseError::InvalidLiteral(size.to_owned())),
                }
            } else {
                Err(ParseError::MalformedType(text.to_owned()))
            }
        },
        None => Err(ParseError::MalformedType(text.to_owned())),
    }
}

impl SolType {
    /// Reads the type expression `s`.
    pub fn from_str(s: &str) -> (r: Result<SolType, ParseError>)
        ensures
            parsed_model(r) == parse(s@),
            r matches Ok(t) ==> t@.wf(),
    {
        parse_type(s)
    }
}

} // verus!
