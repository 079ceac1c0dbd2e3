//! Record definitions as they are written: a header line, one line for each
//! field, a closing brace.

use vstd::prelude::*;
use vstd::string::{StrSliceExecFns, StringExecFns};
use crate::parse::{parse, parse_type};
use crate::split::{find, find_in, join, join_first, lines, split_lines, split_words, texts, words};
use crate::text::{chars_of, has_char, has_prefix, same_chars, trim, trimmed};
use crate::types::{ParseError, ParseErrorModel, RecordModel, SolStruct, SolType, TypeModel};

verus! {

/// Model of what one line of a record definition says.
pub enum LineModel {
    /// Nothing: a blank line, a comment, a closing brace, or a statement of
    /// fewer than two words.
    Nothing,
    /// The record's name.
    Header(Seq<char>),
    /// A field: its name and its type.
    Field(Seq<char>, TypeModel),
}

/// What one line of a record definition says.
#[derive(Debug, PartialEq, Eq)]
pub enum Line {
    /// Nothing: a blank line, a comment, a closing brace, or a statement of
    /// fewer than two words.
    Nothing,
    /// The record's name.
    Header(String),
    /// A field: its name and its type.
    Field(String, SolType),
}

impl View for Line {
    type V = LineModel;

    open spec fn view(&self) -> LineModel {
        match self {
            Line::Nothing => LineModel::Nothing,
            Line::Header(name) => LineModel::Header(name@),
            Line::Field(name, typ) => LineModel::Field(name@, typ@),
        }
    }
}

/// The outcome of reading one line.
pub type LineRead = Result<LineModel, ParseErrorModel>;

/// The outcome of reading a record definition.
pub type RecordRead = Result<RecordModel, ParseErrorModel>;

/// The model of an outcome of reading one line.
pub open spec fn line_model(r: Result<Line, ParseError>) -> LineRead {
    match r {
        Ok(line) => Ok(line@),
        Err(e) => Err(e@),
    }
}

/// The model of an outcome of reading a record definition.
pub open spec fn record_model(r: Result<SolStruct, ParseError>) -> RecordRead {
    match r {
        Ok(record) => Ok(record@),
        Err(e) => Err(e@),
    }
}

/// The texts that a list of strings holds.
pub open spec fn owned_texts(parts: Seq<String>) -> Seq<Seq<char>> {
    parts.map_values(|part: String| part@)
}

/// The name in a header: what stands between the word `struct`, which ends at
/// index `from` of `line`, and the first opening brace after it, trimmed. `None`
/// where no brace follows.
pub open spec fn header_name(line: Seq<char>, from: nat) -> Option<Seq<char>> {
    let after = line.skip(from as int);
    match find(after, "{"@) {
        Some(brace) => Some(trimmed(after.take(brace as int))),
        None => None,
    }
}

/// The field that the statement `before` declares: its last word is the name,
/// the words before it, joined by single spaces, are the type. A statement of
/// fewer than two words declares nothing.
pub open spec fn field_of(before: Seq<char>) -> LineRead {
    let parts = words(before);
    if parts.len() > 1 {
        match parse(join(parts.drop_last(), " "@)) {
            Ok(typ) => Ok(LineModel::Field(parts.last(), typ)),
            Err(e) => Err(e),
        }
    } else {
        Ok(LineModel::Nothing)
    }
}

/// What the line `line` says. The line is trimmed; then the first of these that
/// applies decides: it is empty or starts with `//`; it holds the word `struct`;
/// it holds a semicolon; it is a closing brace. Any other line is refused.
pub open spec fn line_meaning(line: Seq<char>) -> LineRead {
    let l = trimmed(line);
    if l.len() == 0 || "//"@.is_prefix_of(l) {
        Ok(LineModel::Nothing)
    } else if find(l, "struct"@) is Some {
        match header_name(l, find(l, "struct"@).unwrap() + "struct"@.len()) {
            Some(name) => Ok(LineModel::Header(name)),
            None => Err(ParseErrorModel::InvalidLine(l)),
        }
    } else if find(l, ";"@) is Some {
        field_of(l.take(find(l, ";"@).unwrap() as int))
    } else if l == "}"@ {
        Ok(LineModel::Nothing)
    } else {
        Err(ParseErrorModel::InvalidLine(l))
    }
}

/// The record after a line: a header gives it a name, a field is added after
/// the fields it has.
pub open spec fn with_line(record: RecordModel, line: LineModel) -> RecordModel {
    match line {
        LineModel::Nothing => record,
        LineModel::Header(name) => RecordModel { name, fields: record.fields },
        LineModel::Field(name, typ) => RecordModel {
            name: record.name,
            fields: record.fields.push((name, typ)),
        },
    }
}

/// The record after the lines from index `from` on; the first line that is
/// refused ends the reading.
pub open spec fn read_lines(all: Seq<Seq<char>>, from: nat, record: RecordModel) -> RecordRead
    decreases all.len() - from,
{
    if from >= all.len() {
        Ok(record)
    } else {
        match line_meaning(all[from as int]) {
            Ok(line) => read_lines(all, from + 1, with_line(record, line)),
            Err(e) => Err(e),
        }
    }
}

/// The record that the definition `src` declares.
pub open spec fn record_of(src: Seq<char>) -> RecordRead {
    read_lines(lines(src), 0, RecordModel { name: Seq::empty(), fields: Seq::empty() })
}

/// The chunks of the lines from index `from` on, after the chunks `done`, where
/// the lines `current` belong to the chunk that is being collected. Blank lines
/// belong to no chunk; a line that holds a closing brace ends its chunk; a chunk
/// is its lines joined by line feeds. Lines after the last closing brace are
/// dropped.
pub open spec fn chunks_from(
    all: Seq<Seq<char>>,
    from: nat,
    current: Seq<Seq<char>>,
    done: Seq<Seq<char>>,
) -> Seq<Seq<char>>
    decreases all.len() - from,
{
    if from >= all.len() {
        done
    } else {
        let line = all[from as int];
        if trimmed(line).len() == 0 {
            chunks_from(all, from + 1, current, done)
        } else if line.contains('}') {
            chunks_from(all, from + 1, Seq::empty(), done.push(join(current.push(line), "\n"@)))
        } else {
            chunks_from(all, from + 1, current.push(line), done)
        }
    }
}

/// The record definitions in `src`, one text each.
pub open spec fn chunks(src: Seq<char>) -> Seq<Seq<char>> {
    chunks_from(lines(src), 0, Seq::empty(), Seq::empty())
}

/// Cuts `src` into record definitions.
pub fn chunk_structs(src: &str) -> (r: Vec<String>)
    ensures
        owned_texts(r@) == chunks(src@),
{
    let all = split_lines(src);
    let mut structs: Vec<String> = Vec::new();
    let mut curr_struct = String::new();
    let mut started = false;
    let ghost mut current: Seq<Seq<char>> = Seq::empty();
    assert(owned_texts(structs@) =~= Seq::<Seq<char>>::empty());
    let mut i: usize = 0;
    while i < all.len()
        invariant
            i <= all.len(),
            texts(all@) == lines(src@),
            started == (current.len() > 0),
            curr_struct@ == join(current, "\n"@),
            chunks_from(lines(src@), i as nat, current, owned_texts(structs@)) == chunks(src@),
        decreases all.len() - i,
    {
        let line = all[i];
        assert(texts(all@)[i as int] == line@);
        if !trim(line).is_empty() {
            let ghost grown = current.push(line@);
            assert(grown.drop_last() =~= current);
            if started {
                curr_struct.append("\n");
            }
            curr_struct.append(line);
            assert(curr_struct@ =~= join(grown, "\n"@));
            let chars = chars_of(line);
            if has_char(&chars, '}') {
                let ghost before = owned_texts(structs@);
                structs.push(curr_struct);
                assert(owned_texts(structs@) =~= before.push(join(grown, "\n"@)));
                curr_struct = String::new();
                started = false;
                proof {
                    current = Seq::empty();
                }
            } else {
                started = true;
                proof {
                    current = grown;
                }
            }
        }
        i = i + 1;
    }
    structs
}

/// Reads the statement `before`, the part of a line in front of its semicolon.
fn read_field(before: &str) -> (r: Result<Line, ParseError>)
    ensures
        line_model(r) == field_of(before@),
        r matches Ok(Line::Field(_, typ)) ==> typ@.wf(),
{
    let splits = split_words(before);
    if splits.len() > 1 {
        let last = splits.len() - 1;
        assert(texts(splits@).take(last as int) =~= words(before@).drop_last());
        assert(texts(splits@)[last as int] == splits@[last as int]@);
        let typ = join_first(&splits, last, " ");
        let field = splits[last].to_owned();
        let parsed = parse_type(typ.as_str())?;
        Ok(Line::Field(field, parsed))
    } else {
        Ok(Line::Nothing)
    }
}

/// Reads one line of a record definition.
pub fn read_line(line: &str) -> (r: Result<Line, ParseError>)
    ensures
        line_model(r) == line_meaning(line@),
        r matches Ok(Line::Field(_, typ)) ==> typ@.wf(),
{
    let l = trim(line);
    let chars = chars_of(l);
    if chars.len() == 0 || has_prefix(&chars, "//") {
        return Ok(Line::Nothing);
    }
    if let Some(at) = find_in(&chars, "struct") {
        let from = at + "struct".unicode_len();
        let after = l.substring_char(from, chars.len());
        assert(after@ =~= l@.skip(from as int));
        let rest = chars_of(after);
        return match find_in(&rest, "{") {
            Some(brace) => Ok(Line::Header(trim(after.substring_char(0, brace)).to_owned())),
            None => Err(ParseError::InvalidLine(l.to_owned())),
        };
    }
    if let Some(semicolon) = find_in(&chars, ";") {
        return read_field(l.substring_char(0, semicolon));
    }
    let brace = chars_of("}");
    if same_chars(&chars, &brace) {
        Ok(Line::Nothing)
    } else {
        Err(ParseError::InvalidLine(l.to_owned()))
    }
}

/// Reads one record definition.
pub fn parse_struct(src: &str) -> (r: Result<SolStruct, ParseError>)
    ensures
        record_model(r) == record_of(src@),
        r matches Ok(record) ==> record@.wf(),
{
    let all = split_lines(src);
    let mut struct_name = String::new();
    let mut fields: Vec<(String, SolType)> = Vec::new();
    let ghost mut model = RecordModel { name: Seq::empty(), fields: Seq::empty() };
    let mut i: usize = 0;
    while i < all.len()
        invariant
            i <= all.len(),
            texts(all@) == lines(src@),
            model.name == struct_name@,
            model.fields.len() == fields.len(),
            forall|k: int|
                0 <= k < fields.len() ==> (#[trigger] model.fields[k]) == (
                    fields@[k].0@,
                    fields@[k].1@,
                ),
            forall|k: int| 0 <= k < fields.len() ==> (#[trigger] fields@[k]).1@.wf(),
            read_lines(lines(src@), i as nat, model) == record_of(src@),
        decreases all.len() - i,
    {
        assert(texts(all@)[i as int] == all@[i as int]@);
        match read_line(all[i])? {
            Line::Nothing => {},
            Line::Header(name) => {
                struct_name = name;
                proof {
                    model = RecordModel { name: struct_name@, fields: model.fields };
                }
            },
            Line::Field(name, typ) => {
                proof {
                    model = RecordModel {
                        name: model.name,
                        fields: model.fields.push((name@, typ@)),
                    };
                }
                fields.push((name, typ));
            },
        }
        i = i + 1;
    }
    let record = SolStruct { name: struct_name, fields };
    assert(record@.fields =~= model.fields);
    Ok(record)
}

} // verus!
