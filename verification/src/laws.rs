//! What holds of every type expression and of every record.

use vstd::prelude::*;
use crate::decimal::{count_number, digits_of, lemma_digits_round_trip};
use crate::packing::{
    align, place, place_fields, place_repeated, place_value, record_bits, type_bits, Packing,
    Records,
};
use crate::parse::{fixed_array_of, keyword, mapping_of, parse, suffix_number, Parsed};
use crate::pattern::{captured_pair, FIXED_ARRAY_REGEX, MAPPING_REGEX};
use crate::record::{
    chunks, chunks_from, line_meaning, read_lines, record_of, with_line, LineModel,
};
use crate::shape::{lemma_last_index, mapping_parts, repetition_parts};
use crate::slots::{round_up, slots_for};
use crate::split::{join, lines};
use crate::text::{lemma_trim_start_absorbed, lemma_trim_start_concat, trim_start, trimmed};
use crate::types::{valid_width, ParseErrorModel, RecordModel, SizeErrorModel, TypeModel};

verus! {

/// For every width `w` that is a multiple of 8 from 8 to 256, the keyword made of
/// `uint` and the decimal digits of `w` reads as the unsigned integer type of
/// width `w`, and that type standing alone takes `w` bits.
pub proof fn lemma_uint_keyword(w: nat, all: Records, depth: nat)
    requires
        valid_width(w as int),
    ensures
        parse("uint"@ + digits_of(w)) == Ok::<TypeModel, ParseErrorModel>(
            TypeModel::Uint(w as u16),
        ),
        type_bits(TypeModel::Uint(w as u16), all, depth) == Ok::<nat, SizeErrorModel>(w),
{
    reveal_strlit("uint");
    reveal_strlit("int");
    reveal_strlit("address");
    reveal_strlit("bool");
    reveal_strlit("bytes");
    lemma_digits_round_trip(w);
    let t = "uint"@ + digits_of(w);
    assert(!"bytes"@.is_prefix_of(t));
    assert("uint"@.is_prefix_of(t));
    assert(t.skip(4) =~= digits_of(w));
}

/// A record whose only field is a repetition of any length takes exactly 256
/// bits, which is one slot, whatever the element type is.
pub proof fn lemma_single_array_record(record: RecordModel, all: Records, depth: nat)
    requires
        record.fields.len() == 1,
        record.fields[0].1 is Array,
    ensures
        record_bits(record, all, depth) == Ok::<nat, SizeErrorModel>(256),
        slots_for(256) == 1,
{
}

/// A record that is a field starts on a slot boundary and ends on one: the
/// state after it has a total that is a multiple of 256, the rounded total
/// before it plus its own size rounded up, and a fresh slot. A value that
/// follows is therefore placed at the very start of a slot.
pub proof fn lemma_record_between_boundaries(
    record: RecordModel,
    all: Records,
    depth: nat,
    st: Packing,
)
    ensures
        place(TypeModel::Custom(record), all, depth, st) matches Ok(after) ==> {
            &&& record_bits(record, all, depth) matches Ok(inner)
            &&& after.total_bits == round_up(round_up(st.total_bits as nat) + inner)
            &&& after.total_bits % 256 == 0
            &&& after.slot_bits_used == 0
            &&& forall|need: nat|
                need <= 256 && after.total_bits + need <= u64::MAX ==> #[trigger] place_value(
                    need,
                    after,
                ) == Ok::<Packing, SizeErrorModel>(
                    Packing {
                        total_bits: (after.total_bits + need) as u64,
                        slot_bits_used: need as u64,
                    },
                )
        },
{
}

/// A named record is placed as the record that the name stands for, so it too
/// starts and ends on a slot boundary.
pub proof fn lemma_named_record_between_boundaries(
    name: Seq<char>,
    all: Records,
    depth: nat,
    st: Packing,
)
    ensures
        place(TypeModel::Custom2(name), all, depth, st) matches Ok(after) ==> {
            &&& all.contains_key(name)
            &&& depth > 0
            &&& Ok::<Packing, SizeErrorModel>(after) == place(
                TypeModel::Custom(all[name]),
                all,
                (depth - 1) as nat,
                st,
            )
            &&& after.total_bits % 256 == 0
            &&& after.slot_bits_used == 0
        },
{
    if all.contains_key(name) && depth > 0 {
        lemma_record_between_boundaries(all[name], all, (depth - 1) as nat, st);
    }
}

/// A text that is no keyword, does not start with `mapping`, does not end with
/// `[]` and does not hold both brackets reads as the name of a record, whether
/// such a record exists or not. Where no record of that name is registered,
/// the size of the type and the placing of a field of that type fail with the
/// unresolved name.
pub proof fn lemma_unknown_name(text: Seq<char>, all: Records, depth: nat, st: Packing)
    requires
        keyword(trimmed(text)) is None,
        !"mapping"@.is_prefix_of(trimmed(text)),
        !"[]"@.is_suffix_of(trimmed(text)),
        !(trimmed(text).contains('[') && trimmed(text).contains(']')),
        !all.contains_key(trimmed(text)),
    ensures
        parse(text) == Ok::<TypeModel, ParseErrorModel>(TypeModel::Custom2(trimmed(text))),
        type_bits(TypeModel::Custom2(trimmed(text)), all, depth) == Err::<nat, SizeErrorModel>(
            SizeErrorModel::UnresolvedReference(trimmed(text)),
        ),
        place(TypeModel::Custom2(trimmed(text)), all, depth, st) == Err::<
            Packing,
            SizeErrorModel,
        >(SizeErrorModel::UnresolvedReference(trimmed(text))),
{
}

/// A record is unresolved as soon as one of its fields is: where the fields
/// before index `i` are placed without error and field `i` fails, the record
/// fails in the same way.
pub proof fn lemma_first_failure(
    fields: Seq<(Seq<char>, TypeModel)>,
    from: nat,
    i: nat,
    all: Records,
    depth: nat,
    st: Packing,
    at_i: Packing,
)
    requires
        from <= i < fields.len(),
        place_fields(fields.take(i as int), from, all, depth, st) == Ok::<Packing, SizeErrorModel>(
            at_i,
        ),
        place(fields[i as int].1, all, depth, at_i) is Err,
    ensures
        place_fields(fields, from, all, depth, st) == place(fields[i as int].1, all, depth, at_i),
    decreases i - from,
{
    if from < i {
        let next = place(fields[from as int].1, all, depth, st);
        lemma_first_failure(fields, from + 1, i, all, depth, next->Ok_0, at_i);
    }
}

/// Every record that a name resolves to is well formed.
pub open spec fn records_wf(all: Records) -> bool {
    forall|name: Seq<char>| all.contains_key(name) ==> (#[trigger] all[name]).wf()
}

/// Placing a field never lowers the total and never leaves more than 256 bits
/// in the slot that is being filled.
pub proof fn lemma_place_state(t: TypeModel, all: Records, depth: nat, st: Packing)
    requires
        t.wf(),
        records_wf(all),
        st.wf(),
    ensures
        place(t, all, depth, st) matches Ok(after) ==> after.wf() && after.total_bits
            >= st.total_bits,
    decreases depth, t, 0nat,
{
    match t {
        TypeModel::FixedArray(elem, count) => {
            if let Ok(s) = align(st) {
                lemma_place_repeated_state(*elem, all, depth, s, count as nat);
            }
        },
        TypeModel::Custom2(name) => {
            if all.contains_key(name) && depth > 0 {
                lemma_place_state(TypeModel::Custom(all[name]), all, (depth - 1) as nat, st);
            }
        },
        _ => {},
    }
}

/// Placing an item several times never lowers the total and never leaves more
/// than 256 bits in the slot that is being filled.
pub proof fn lemma_place_repeated_state(
    elem: TypeModel,
    all: Records,
    depth: nat,
    st: Packing,
    count: nat,
)
    requires
        elem.wf(),
        records_wf(all),
        st.wf(),
    ensures
        place_repeated(elem, all, depth, st, count) matches Ok(after) ==> after.wf()
            && after.total_bits >= st.total_bits,
    decreases depth, elem, count + 1,
{
    if count > 0 {
        lemma_place_state(elem, all, depth, st);
        if let Ok(s) = place(elem, all, depth, st) {
            lemma_place_repeated_state(elem, all, depth, s, (count - 1) as nat);
        }
    }
}

/// A record without fields takes 0 bits.
pub proof fn lemma_empty_record(record: RecordModel, all: Records, depth: nat)
    requires
        record.fields.len() == 0,
    ensures
        record_bits(record, all, depth) == Ok::<nat, SizeErrorModel>(0),
{
}

/// The meaning of the element type `elem`, repeated `count` times.
pub open spec fn repeated(elem: Seq<char>, count: u64) -> Parsed {
    match parse(elem) {
        Ok(e) => Ok(TypeModel::FixedArray(Box::new(e), count)),
        Err(e) => Err(e),
    }
}

/// The text `elem[count]`, the count in decimal digits.
pub open spec fn repetition_text(elem: Seq<char>, count: u64) -> Seq<char> {
    elem + "["@ + digits_of(count as nat) + "]"@
}

/// The parts of `T[N]` are `T` and `N`: the last bracket pair holds the count,
/// whatever brackets `T` holds itself.
pub proof fn lemma_parts_of_repetition(elem: Seq<char>, count: u64)
    requires
        elem.len() > 0,
    ensures
        repetition_parts(repetition_text(elem, count)) == Some((elem, digits_of(count as nat))),
{
    reveal_strlit("[");
    reveal_strlit("]");
    lemma_digits_round_trip(count as nat);
    let digits = digits_of(count as nat);
    let t = repetition_text(elem, count);
    let open = elem.len() as int;
    assert(t[open] == '[');
    assert forall|j: int| open < j < t.len() implies t[j] != '[' by {
        if j < t.len() - 1 {
            assert(t[j] == digits[j - open - 1]);
        }
    }
    lemma_last_index(t, '[', open);
    assert(t.take(open) =~= elem);
    assert(t.subrange(open + 1, t.len() - 1) =~= digits);
    assert(trimmed(digits) == digits);
}

/// A repetition with a count gives back its element type and its count: the
/// text `T[N]`, where `T` is not blank and the text does not start with
/// `mapping`, reads as `N` times the type that `T` spells, or else is refused
/// as malformed; nothing of it is ever left out. It reads as the repetition
/// where the grammar finds `T`, trimmed at its start, and `N` in the trimmed
/// text. `T` may be a repetition itself.
pub proof fn lemma_repetition_round_trip(elem: Seq<char>, count: u64)
    requires
        trimmed(elem).len() > 0,
        !"mapping"@.is_prefix_of(trimmed(repetition_text(elem, count))),
    ensures
        parse(repetition_text(elem, count)) == repeated(elem, count) || parse(
            repetition_text(elem, count),
        ) == Err::<TypeModel, ParseErrorModel>(
            ParseErrorModel::MalformedType(trimmed(repetition_text(elem, count))),
        ),
        captured_pair(
            FIXED_ARRAY_REGEX@,
            trimmed(repetition_text(elem, count)),
            "type"@,
            "size"@,
        ) == Some((trim_start(elem), digits_of(count as nat))) ==> parse(
            repetition_text(elem, count),
        ) == repeated(elem, count),
{
    reveal_strlit("[");
    reveal_strlit("]");
    reveal_strlit("[]");
    reveal_strlit("uint");
    reveal_strlit("int");
    reveal_strlit("address");
    reveal_strlit("bool");
    reveal_strlit("bytes");
    lemma_digits_round_trip(count as nat);
    let digits = digits_of(count as nat);
    let tail = "["@ + digits + "]"@;
    let head = trim_start(elem);
    let t = repetition_text(head, count);
    let n = t.len() as int;
    assert(trimmed(repetition_text(elem, count)) == t) by {
        lemma_trim_start_concat(elem, tail);
        assert(repetition_text(elem, count) =~= elem + tail);
        assert(t =~= head + tail);
        assert(t.last() == ']');
    }
    assert(t[n - 2] == digits.last());
    assert(!"[]"@.is_suffix_of(t)) by {
        if "[]"@.is_suffix_of(t) {
            assert(t.subrange(n - 2, n)[0] == '[');
        }
    }
    assert forall|prefix: Seq<char>| suffix_number(t, prefix) is None by {
        if prefix.is_prefix_of(t) {
            assert(t.skip(prefix.len() as int).len() > 0 ==> t.skip(prefix.len() as int).last()
                == ']');
        }
    }
    assert(keyword(t) is None);
    assert(t.contains('[')) by {
        assert(t[head.len() as int] == '[');
    }
    assert(t.contains(']')) by {
        assert(t[n - 1] == ']');
    }
    let groups = captured_pair(FIXED_ARRAY_REGEX@, t, "type"@, "size"@);
    assert(parse(repetition_text(elem, count)) == fixed_array_of(t, groups));
    lemma_parts_of_repetition(head, count);
    assert(parse(head) == parse(elem)) by {
        lemma_trim_start_absorbed(elem);
    }
}

/// What is built from the groups of the repetition grammar is a repetition of
/// the parts of the text, or nothing.
pub proof fn lemma_fixed_array_of_parts(t: Seq<char>, groups: Option<(Seq<char>, Seq<char>)>)
    ensures
        fixed_array_of(t, groups) matches Ok(typ) ==> {
            &&& typ matches TypeModel::FixedArray(elem, count)
            &&& repetition_parts(t) matches Some((before, size))
            &&& groups == Some((before, size))
            &&& count_number(size) == Some(count)
            &&& parse(before) == Ok::<TypeModel, ParseErrorModel>(*elem)
        },
{
}

/// What is built from the groups of the container grammar is a container of the
/// parts of the text, or nothing.
pub proof fn lemma_mapping_of_parts(t: Seq<char>, groups: Option<(Seq<char>, Seq<char>)>)
    ensures
        mapping_of(t, groups) matches Ok(typ) ==> {
            &&& typ matches TypeModel::Mapping(key, value)
            &&& mapping_parts(t) matches Some((k, v))
            &&& groups == Some((k, v))
            &&& parse(k) == Ok::<TypeModel, ParseErrorModel>(*key)
            &&& parse(v) == Ok::<TypeModel, ParseErrorModel>(*value)
        },
{
}

/// A repetition with a count is read from the last bracket pair of the trimmed
/// text and from nothing else: where a text reads as a repetition, the count is
/// the number in that pair, and the element is what all of the text before the
/// pair spells.
pub proof fn lemma_repetition_from_last_pair(text: Seq<char>)
    ensures
        parse(text) matches Ok(TypeModel::FixedArray(elem, count)) ==> {
            &&& repetition_parts(trimmed(text)) matches Some((before, size))
            &&& count_number(size) == Some(count)
            &&& parse(before) == Ok::<TypeModel, ParseErrorModel>(*elem)
        },
{
    let t = trimmed(text);
    lemma_mapping_of_parts(t, captured_pair(MAPPING_REGEX@, t, "key_type"@, "value_type"@));
    lemma_fixed_array_of_parts(t, captured_pair(FIXED_ARRAY_REGEX@, t, "type"@, "size"@));
}

/// A key/value container is read from the whole of the trimmed text: where a
/// text reads as a container, the text has the outline of one, and key and value
/// are what the two parts of that outline spell.
pub proof fn lemma_mapping_from_whole_text(text: Seq<char>)
    ensures
        parse(text) matches Ok(TypeModel::Mapping(key, value)) ==> {
            &&& mapping_parts(trimmed(text)) matches Some((k, v))
            &&& parse(k) == Ok::<TypeModel, ParseErrorModel>(*key)
            &&& parse(v) == Ok::<TypeModel, ParseErrorModel>(*value)
        },
{
    let t = trimmed(text);
    lemma_mapping_of_parts(t, captured_pair(MAPPING_REGEX@, t, "key_type"@, "value_type"@));
    lemma_fixed_array_of_parts(t, captured_pair(FIXED_ARRAY_REGEX@, t, "type"@, "size"@));
}

/// A text that starts with `mapping` without the outline of a container, or
/// holds both brackets without ending in a bracket pair after an element, is
/// malformed, whatever the grammar finds in it.
pub proof fn lemma_malformed_outside_outline(text: Seq<char>)
    requires
        keyword(trimmed(text)) is None,
    ensures
        "mapping"@.is_prefix_of(trimmed(text)) && mapping_parts(trimmed(text)) is None ==> parse(
            text,
        ) == Err::<TypeModel, ParseErrorModel>(ParseErrorModel::MalformedType(trimmed(text))),
        !"mapping"@.is_prefix_of(trimmed(text)) && !"[]"@.is_suffix_of(trimmed(text)) && trimmed(
            text,
        ).contains('[') && trimmed(text).contains(']') && repetition_parts(trimmed(text))
            is None ==> parse(text) == Err::<TypeModel, ParseErrorModel>(
            ParseErrorModel::MalformedType(trimmed(text)),
        ),
{
    let t = trimmed(text);
    assert(mapping_parts(t) is None ==> mapping_of(
        t,
        captured_pair(MAPPING_REGEX@, t, "key_type"@, "value_type"@),
    ) == Err::<TypeModel, ParseErrorModel>(ParseErrorModel::MalformedType(t)));
    assert(repetition_parts(t) is None ==> fixed_array_of(
        t,
        captured_pair(FIXED_ARRAY_REGEX@, t, "type"@, "size"@),
    ) == Err::<TypeModel, ParseErrorModel>(ParseErrorModel::MalformedType(t)));
}

/// The fields that the lines from index `from` on declare, in the order of the
/// lines.
pub open spec fn declared_fields(all: Seq<Seq<char>>, from: nat) -> Seq<(Seq<char>, TypeModel)>
    decreases all.len() - from,
{
    if from >= all.len() {
        Seq::empty()
    } else {
        match line_meaning(all[from as int]) {
            Ok(LineModel::Field(name, typ)) => seq![(name, typ)] + declared_fields(all, from + 1),
            _ => declared_fields(all, from + 1),
        }
    }
}

/// Reading keeps the order of declaration: the record read from some lines has
/// the fields it had before, then the fields that the lines declare, in the
/// order of the lines.
pub proof fn lemma_fields_in_declaration_order(
    all: Seq<Seq<char>>,
    from: nat,
    record: RecordModel,
)
    ensures
        read_lines(all, from, record) matches Ok(read) ==> read.fields == record.fields
            + declared_fields(all, from),
    decreases all.len() - from,
{
    if from < all.len() {
        if let Ok(line) = line_meaning(all[from as int]) {
            let next = with_line(record, line);
            lemma_fields_in_declaration_order(all, from + 1, next);
            if let Ok(read) = read_lines(all, from, record) {
                assert(read.fields =~= record.fields + declared_fields(all, from));
            }
        }
    }
}

/// A record definition gives the fields that its lines declare, in the order of
/// the lines.
pub proof fn lemma_record_in_declaration_order(src: Seq<char>)
    ensures
        record_of(src) matches Ok(read) ==> read.fields == declared_fields(lines(src), 0),
{
    let none = RecordModel { name: Seq::empty(), fields: Seq::empty() };
    lemma_fields_in_declaration_order(lines(src), 0, none);
    assert(none.fields + declared_fields(lines(src), 0) =~= declared_fields(lines(src), 0));
}

/// The number of lines from index `from` on that are not blank and hold a
/// closing brace.
pub open spec fn closing_lines(all: Seq<Seq<char>>, from: nat) -> nat
    decreases all.len() - from,
{
    if from >= all.len() {
        0
    } else if trimmed(all[from as int]).len() > 0 && all[from as int].contains('}') {
        1 + closing_lines(all, from + 1)
    } else {
        closing_lines(all, from + 1)
    }
}

/// Chunking keeps the chunks that are done and adds one chunk for each line
/// that holds a closing brace.
pub proof fn lemma_one_chunk_per_block(
    all: Seq<Seq<char>>,
    from: nat,
    current: Seq<Seq<char>>,
    done: Seq<Seq<char>>,
)
    ensures
        chunks_from(all, from, current, done).len() == done.len() + closing_lines(all, from),
        chunks_from(all, from, current, done).take(done.len() as int) == done,
    decreases all.len() - from,
{
    if from < all.len() {
        let line = all[from as int];
        if trimmed(line).len() == 0 {
            lemma_one_chunk_per_block(all, from + 1, current, done);
        } else if line.contains('}') {
            let grown = done.push(join(current.push(line), "\n"@));
            lemma_one_chunk_per_block(all, from + 1, Seq::empty(), grown);
            let out = chunks_from(all, from, current, done);
            assert(out.take(done.len() as int) =~= out.take(grown.len() as int).take(
                done.len() as int,
            ));
            assert(grown.take(done.len() as int) =~= done);
        } else {
            lemma_one_chunk_per_block(all, from + 1, current.push(line), done);
        }
    } else {
        assert(done.take(done.len() as int) =~= done);
    }
}

/// A text gives one chunk for each of its lines that holds a closing brace.
pub proof fn lemma_chunk_count(src: Seq<char>)
    ensures
        chunks(src).len() == closing_lines(lines(src), 0),
{
    lemma_one_chunk_per_block(lines(src), 0, Seq::empty(), Seq::empty());
}

} // verus!
