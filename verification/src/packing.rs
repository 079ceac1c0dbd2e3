//! The packing rules: how the fields of a record fill 256-bit slots.

use vstd::prelude::*;
use crate::registry::Registry;
use crate::slots::{round_up, snap_to_upper_256, LAST_BOUNDARY};
use crate::types::{RecordModel, SizeError, SizeErrorModel, SolStruct, SolType, TypeModel};

verus! {

/// The state carried from field to field while a record is packed.
#[derive(Clone, Copy, Debug, PartialEq, Eq, Structural)]
pub struct Packing {
    /// Bits accounted for so far.
    pub total_bits: u64,
    /// Bits taken in the slot that is being filled.
    pub slot_bits_used: u64,
}

/// The records that named references resolve to, by name.
pub type Records = Map<Seq<char>, RecordModel>;

/// The outcome of a packing step.
pub type Packed = Result<Packing, SizeErrorModel>;

/// How deep named references are followed when no other bound is given.
pub const DEFAULT_DEPTH: u64 = 64;

impl Packing {
    /// The state before the first field.
    pub open spec fn start() -> Packing {
        Packing { total_bits: 0, slot_bits_used: 0 }
    }

    /// No slot holds more than 256 bits.
    pub open spec fn wf(self) -> bool {
        self.slot_bits_used <= 256
    }
}

/// The width in bits of a value type; `None` for every other type.
pub open spec fn value_bits(t: TypeModel) -> Option<nat> {
    match t {
        TypeModel::Uint(w) => Some(w as nat),
        TypeModel::Int(w) => Some(w as nat),
        TypeModel::Address => Some(160),
        TypeModel::Bool => Some(1),
        TypeModel::Bytes(n) => Some(8 * n as nat),
        _ => None,
    }
}

/// The state with `total` bits and a fresh slot, if `total` fits in 64 bits.
pub open spec fn at_boundary(total: nat) -> Packed {
    if total <= u64::MAX {
        Ok(Packing { total_bits: total as u64, slot_bits_used: 0 })
    } else {
        Err(SizeErrorModel::Overflow)
    }
}

/// Forces a slot boundary: the total is rounded up and a fresh slot begins.
pub open spec fn align(st: Packing) -> Packed {
    at_boundary(round_up(st.total_bits as nat))
}

/// Places a value of `need` bits: in the current slot if it has room, else at the
/// start of the next one, the skipped bits counted into the total.
pub open spec fn place_value(need: nat, st: Packing) -> Packed {
    let room = 256 - st.slot_bits_used;
    if need <= room {
        if st.total_bits + need <= u64::MAX {
            Ok(
                Packing {
                    total_bits: (st.total_bits + need) as u64,
                    slot_bits_used: (st.slot_bits_used + need) as u64,
                },
            )
        } else {
            Err(SizeErrorModel::Overflow)
        }
    } else {
        if st.total_bits + room + need <= u64::MAX {
            Ok(
                Packing {
                    total_bits: (st.total_bits + room + need) as u64,
                    slot_bits_used: need as u64,
                },
            )
        } else {
            Err(SizeErrorModel::Overflow)
        }
    }
}

/// Places a dynamic item: a boundary, then exactly one slot.
pub open spec fn place_dynamic(st: Packing) -> Packed {
    match align(st) {
        Ok(s) => at_boundary(s.total_bits as nat + 256),
        Err(e) => Err(e),
    }
}

/// Ends a record of `inner` bits that began at the boundary `st`: the total is
/// rounded up once more, so that what follows starts a fresh slot.
pub open spec fn close_record(inner: nat, st: Packing) -> Packed {
    if st.total_bits + inner <= u64::MAX {
        at_boundary(round_up(st.total_bits as nat + inner))
    } else {
        Err(SizeErrorModel::Overflow)
    }
}

/// The state after a field of type `t` is placed in state `st`.
pub open spec fn place(t: TypeModel, all: Records, depth: nat, st: Packing) -> Packed
    decreases depth, t, 0nat,
{
    match t {
        TypeModel::FixedArray(elem, count) => match align(st) {
            Ok(s) => place_repeated(*elem, all, depth, s, count as nat),
            Err(e) => Err(e),
        },
        TypeModel::Mapping(_, _) | TypeModel::Array(_) | TypeModel::BytesArbitrary => place_dynamic(
            st,
        ),
        TypeModel::Custom(record) => match align(st) {
            Ok(s) => match record_bits(record, all, depth) {
                Ok(inner) => close_record(inner, s),
                Err(e) => Err(e),
            },
            Err(e) => Err(e),
        },
        TypeModel::Custom2(name) => if !all.contains_key(name) {
            Err(SizeErrorModel::UnresolvedReference(name))
        } else if depth == 0 {
            Err(SizeErrorModel::RecursionLimitExceeded)
        } else {
            place(TypeModel::Custom(all[name]), all, (depth - 1) as nat, st)
        },
        _ => place_value(value_bits(t).unwrap(), st),
    }
}

/// The state after `count` more items of type `elem` are placed one after the other.
pub open spec fn place_repeated(
    elem: TypeModel,
    all: Records,
    depth: nat,
    st: Packing,
    count: nat,
) -> Packed
    decreases depth, elem, count + 1,
{
    if count == 0 {
        Ok(st)
    } else {
        match place(elem, all, depth, st) {
            Ok(s) => place_repeated(elem, all, depth, s, (count - 1) as nat),
            Err(e) => Err(e),
        }
    }
}

/// The state after the fields from index `from` on are placed in declaration order.
pub open spec fn place_fields(
    fields: Seq<(Seq<char>, TypeModel)>,
    from: nat,
    all: Records,
    depth: nat,
    st: Packing,
) -> Packed
    decreases depth, fields, fields.len() - from,
{
    if from >= fields.len() {
        Ok(st)
    } else {
        match place(fields[from as int].1, all, depth, st) {
            Ok(s) => place_fields(fields, from + 1, all, depth, s),
            Err(e) => Err(e),
        }
    }
}

/// The size in bits of a whole record: its fields packed from an empty state.
pub open spec fn record_bits(record: RecordModel, all: Records, depth: nat) -> Result<
    nat,
    SizeErrorModel,
>
    decreases depth, record, 0nat,
{
    match place_fields(record.fields, 0, all, depth, Packing::start()) {
        Ok(s) => Ok(s.total_bits as nat),
        Err(e) => Err(e),
    }
}

/// The size in bits of a type that stands alone, outside any record. A repetition
/// with a count then takes a whole number of slots for each item.
pub open spec fn type_bits(t: TypeModel, all: Records, depth: nat) -> Result<nat, SizeErrorModel>
    decreases t,
{
    match t {
        TypeModel::BytesArbitrary | TypeModel::Mapping(_, _) | TypeModel::Array(_) => Ok(256),
        TypeModel::Custom(record) => record_bits(record, all, depth),
        TypeModel::Custom2(name) => if !all.contains_key(name) {
            Err(SizeErrorModel::UnresolvedReference(name))
        } else if depth == 0 {
            Err(SizeErrorModel::RecursionLimitExceeded)
        } else {
            record_bits(all[name], all, (depth - 1) as nat)
        },
        TypeModel::FixedArray(elem, count) => match type_bits(*elem, all, depth) {
            Ok(item) => if round_up(item) * count <= u64::MAX {
                Ok(round_up(item) * count as nat)
            } else {
                Err(SizeErrorModel::Overflow)
            },
            Err(e) => Err(e),
        },
        _ => Ok(value_bits(t).unwrap()),
    }
}

/// The model of an outcome of a packing step.
pub open spec fn packed_model(r: Result<Packing, SizeError>) -> Packed {
    match r {
        Ok(st) => Ok(st),
        Err(e) => Err(e@),
    }
}

/// The model of a size or the reason why there is none.
pub open spec fn bits_model(r: Result<u64, SizeError>) -> Result<nat, SizeErrorModel> {
    match r {
        Ok(bits) => Ok(bits as nat),
        Err(e) => Err(e@),
    }
}

/// The width of a value type.
fn value_width(typ: &SolType) -> (r: Option<u64>)
    ensures
        match r {
            Some(bits) => value_bits(typ@) == Some(bits as nat),
            None => value_bits(typ@) is None,
        },
{
    match typ {
        SolType::Uint(w) => Some(*w as u64),
        SolType::Int(w) => Some(*w as u64),
        SolType::Address => Some(160),
        SolType::Bool => Some(1),
        SolType::Bytes(n) => Some(*n as u64 * 8),
        _ => None,
    }
}

/// The state with `total` bits and a fresh slot.
fn boundary(total: Option<u64>) -> (r: Result<Packing, SizeError>)
    ensures
        match total {
            Some(t) => packed_model(r) == at_boundary(t as nat),
            None => packed_model(r) == Err::<Packing, _>(SizeErrorModel::Overflow),
        },
{
    match total {
        Some(t) => Ok(Packing { total_bits: t, slot_bits_used: 0 }),
        None => Err(SizeError::Overflow),
    }
}

/// Rounds `bits` up to a slot boundary, if the boundary fits in 64 bits.
pub fn checked_snap(bits: u64) -> (r: Option<u64>)
    ensures
        match r {
            Some(b) => b == round_up(bits as nat),
            None => round_up(bits as nat) > u64::MAX,
        },
{
    if bits <= LAST_BOUNDARY {
        Some(snap_to_upper_256(bits))
    } else {
        None
    }
}

/// Places one field of type `typ` in state `state`, resolving names in
/// `all_structs` at most `depth` levels deep.
pub fn update_state(typ: &SolType, state: Packing, all_structs: &Registry, depth: u64) -> (r:
    Result<Packing, SizeError>)
    requires
        typ@.wf(),
        state.wf(),
    ensures
        packed_model(r) == place(typ@, all_structs@, depth as nat, state),
        r matches Ok(st) ==> st.wf(),
    decreases depth, typ@,
{
    match typ {
        SolType::FixedArray(elem, count) => {
            let start = boundary(checked_snap(state.total_bits))?;
            let mut cur = start;
            let mut done: u64 = 0;
            while done < *count
                invariant
                    done <= *count,
                    typ@ == TypeModel::FixedArray(Box::new(elem@), *count),
                    elem@.wf(),
                    cur.wf(),
                    place_repeated(elem@, all_structs@, depth as nat, cur, (*count - done) as nat)
                        == place(typ@, all_structs@, depth as nat, state),
                decreases *count - done,
            {
                cur = update_state(elem, cur, all_structs, depth)?;
                done = done + 1;
            }
            Ok(cur)
        },
        SolType::Mapping(_, _) | SolType::Array(_) | SolType::BytesArbitrary => {
            let start = boundary(checked_snap(state.total_bits))?;
            boundary(start.total_bits.checked_add(256))
        },
        SolType::Custom(record) => {
            let start = boundary(checked_snap(state.total_bits))?;
            let inner = compute_size_within(record, all_structs, depth)?;
            close(inner, start)
        },
        SolType::Custom2(name) => {
            match all_structs.get(name.as_str()) {
                None => Err(SizeError::UnresolvedReference(name.clone())),
                Some(record) => {
                    if depth == 0 {
                        return Err(SizeError::RecursionLimitExceeded);
                    }
                    assert(place(typ@, all_structs@, depth as nat, state) == place(
                        TypeModel::Custom(record@),
                        all_structs@,
                        (depth - 1) as nat,
                        state,
                    ));
                    let start = boundary(checked_snap(state.total_bits))?;
                    let inner = compute_size_within(record, all_structs, depth - 1)?;
                    close(inner, start)
                },
            }
        },
        _ => {
            let need = value_width(typ).unwrap();
            let room = 256 - state.slot_bits_used;
            if need <= room {
                match state.total_bits.checked_add(need) {
                    Some(total) => Ok(
                        Packing { total_bits: total, slot_bits_used: state.slot_bits_used + need },
                    ),
                    None => Err(SizeError::Overflow),
                }
            } else {
                match state.total_bits.checked_add(room + need) {
                    Some(total) => Ok(Packing { total_bits: total, slot_bits_used: need }),
                    None => Err(SizeError::Overflow),
                }
            }
        },
    }
}

/// Ends a record of `inner` bits that began at the boundary `start`.
fn close(inner: u64, start: Packing) -> (r: Result<Packing, SizeError>)
    ensures
        packed_model(r) == close_record(inner as nat, start),
{
    match start.total_bits.checked_add(inner) {
        Some(end) => boundary(checked_snap(end)),
        None => Err(SizeError::Overflow),
    }
}

/// The size in bits of `record`: its fields packed in declaration order from an
/// empty state, names resolved in `registry` at most `DEFAULT_DEPTH` levels
/// deep.
pub fn compute_size(record: &SolStruct, registry: &Registry) -> (r: Result<u64, SizeError>)
    requires
        record@.wf(),
    ensures
        bits_model(r) == record_bits(record@, registry@, DEFAULT_DEPTH as nat),
{
    compute_size_within(record, registry, DEFAULT_DEPTH)
}

/// The size in bits of `record`: its fields packed in declaration order from an
/// empty state, names resolved in `all_structs` at most `depth` levels deep.
pub fn compute_size_within(record: &SolStruct, all_structs: &Registry, depth: u64) -> (r: Result<
    u64,
    SizeError,
>)
    requires
        record@.wf(),
    ensures
        bits_model(r) == record_bits(record@, all_structs@, depth as nat),
    decreases depth, record@,
{
    let mut cur = Packing { total_bits: 0, slot_bits_used: 0 };
    let mut i: usize = 0;
    while i < record.fields.len()
        invariant
            i <= record.fields.len(),
            record@.wf(),
            cur.wf(),
            place_fields(record@.fields, i as nat, all_structs@, depth as nat, cur)
                == place_fields(record@.fields, 0, all_structs@, depth as nat, Packing::start()),
        decreases record.fields.len() - i,
    {
        assert(record@.fields[i as int].1 == record.fields@[i as int].1@);
        cur = update_state(&record.fields[i].1, cur, all_structs, depth)?;
        i = i + 1;
    }
    Ok(cur.total_bits)
}

impl SolType {
    /// The size in bits of this type standing alone, names resolved in
    /// `all_structs` at most `depth` levels deep.
    pub fn size_within(&self, all_structs: &Registry, depth: u64) -> (r: Result<u64, SizeError>)
        requires
            self@.wf(),
        ensures
            bits_model(r) == type_bits(self@, all_structs@, depth as nat),
        decreases self@,
    {
        match self {
            SolType::BytesArbitrary | SolType::Mapping(_, _) | SolType::Array(_) => Ok(256),
            SolType::Custom(record) => compute_size_within(record, all_structs, depth),
            SolType::Custom2(name) => {
                match all_structs.get(name.as_str()) {
                    None => Err(SizeError::UnresolvedReference(name.clone())),
                    Some(record) => {
                        if depth == 0 {
                            Err(SizeError::RecursionLimitExceeded)
                        } else {
                            compute_size_within(record, all_structs, depth - 1)
                        }
                    },
                }
            },
            SolType::FixedArray(elem, count) => {
                let item = elem.size_within(all_structs, depth)?;
                if *count == 0 {
                    assert(round_up(item as nat) * *count == 0) by (nonlinear_arith)
                        requires
                            *count == 0,
                    ;
                    return Ok(0);
                }
                let whole = checked_snap(item);
                assert(round_up(item as nat) * *count >= round_up(item as nat)) by (nonlinear_arith)
                    requires
                        *count >= 1,
                ;
                match whole {
                    Some(w) => match w.checked_mul(*count) {
                        Some(bits) => Ok(bits),
                        None => Err(SizeError::Overflow),
                    },
                    None => Err(SizeError::Overflow),
                }
            },
            _ => Ok(value_width(self).unwrap()),
        }
    }

    /// The size in bits of this type standing alone, names resolved in
    /// `all_structs` at most `DEFAULT_DEPTH` levels deep.
    pub fn size(&self, all_structs: &Registry) -> (r: Result<u64, SizeError>)
        requires
            self@.wf(),
        ensures
            bits_model(r) == type_bits(self@, all_structs@, DEFAULT_DEPTH as nat),
    {
        self.size_within(all_structs, DEFAULT_DEPTH)
    }
}

} // verus!
