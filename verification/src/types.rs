//! Field types and records, with their mathematical models.

use vstd::prelude::*;

verus! {

/// Model of a field type: names are sequences of characters, nested records are
/// models themselves.
pub enum TypeModel {
    /// Unsigned integer of the given width in bits.
    Uint(u16),
    /// Signed integer of the given width in bits.
    Int(u16),
    /// A 160-bit address.
    Address,
    /// A 1-bit boolean.
    Bool,
    /// A byte sequence of the given fixed length in bytes.
    Bytes(u8),
    /// A byte sequence of any length.
    BytesArbitrary,
    /// A record given by its fields.
    Custom(RecordModel),
    /// A record given by its name.
    Custom2(Seq<char>),
    /// A key/value container.
    Mapping(Box<TypeModel>, Box<TypeModel>),
    /// A repetition of any length.
    Array(Box<TypeModel>),
    /// A repetition with a literal count.
    FixedArray(Box<TypeModel>, u64),
}

/// Model of a record: its name and its fields in declaration order.
pub struct RecordModel {
    pub name: Seq<char>,
    pub fields: Seq<(Seq<char>, TypeModel)>,
}

impl TypeModel {
    /// Integer widths are multiples of 8 from 8 to 256, fixed byte sequences are
    /// 1 to 32 bytes long, and the same holds of every type inside this one.
    pub open spec fn wf(self) -> bool
        decreases self,
    {
        match self {
            TypeModel::Uint(w) => valid_width(w as int),
            TypeModel::Int(w) => valid_width(w as int),
            TypeModel::Bytes(n) => 1 <= n <= 32,
            TypeModel::Custom(record) => record.wf(),
            TypeModel::Mapping(key, value) => key.wf() && value.wf(),
            TypeModel::Array(elem) => elem.wf(),
            TypeModel::FixedArray(elem, _) => elem.wf(),
            _ => true,
        }
    }
}

impl RecordModel {
    /// Every field has a well-formed type.
    pub open spec fn wf(self) -> bool
        decreases self,
    {
        forall|i: int| 0 <= i < self.fields.len() ==> (#[trigger] self.fields[i]).1.wf()
    }
}

/// The widths that an integer type may have.
pub open spec fn valid_width(w: int) -> bool {
    8 <= w <= 256 && w % 8 == 0
}

/// Why a size could not be computed, with names as sequences of characters.
pub enum SizeErrorModel {
    UnresolvedReference(Seq<char>),
    RecursionLimitExceeded,
    Overflow,
}

/// Why a type expression or a record definition could not be read, with the
/// offending text as a sequence of characters.
pub enum ParseErrorModel {
    MalformedType(Seq<char>),
    InvalidLiteral(Seq<char>),
    InvalidLine(Seq<char>),
}

/// The type of one field of a record.
#[derive(Debug, PartialEq, Eq)]
pub enum SolType {
    /// Unsigned integer of the given width in bits.
    Uint(u16),
    /// Signed integer of the given width in bits.
    Int(u16),
    /// A 160-bit address.
    Address,
    /// A 1-bit boolean.
    Bool,
    /// A byte sequence of the given fixed length in bytes.
    Bytes(u8),
    /// A byte sequence of any length.
    BytesArbitrary,
    /// A record given by its fields.
    Custom(SolStruct),
    /// A record given by its name, to be looked up when a size is computed.
    Custom2(String),
    /// A key/value container.
    Mapping(Box<SolType>, Box<SolType>),
    /// A repetition of any length.
    Array(Box<SolType>),
    /// A repetition with a literal count.
    FixedArray(Box<SolType>, u64),
}

/// A named record with its fields in declaration order.
#[derive(Debug, PartialEq, Eq)]
pub struct SolStruct {
    pub name: String,
    pub fields: Vec<(String, SolType)>,
}

/// Why a size could not be computed.
#[derive(Debug, PartialEq, Eq)]
pub enum SizeError {
    /// A named reference is not in the registry; carries the missing name.
    UnresolvedReference(String),
    /// Named references were followed deeper than the bound allows.
    RecursionLimitExceeded,
    /// The size does not fit in 64 bits.
    Overflow,
}

/// Why a type expression or a record definition could not be read.
#[derive(Debug, PartialEq, Eq)]
pub enum ParseError {
    /// The text has the outline of a composite type but not its grammar; carries
    /// the text.
    MalformedType(String),
    /// A repeat count is not a decimal number that fits in 64 bits; carries the
    /// count as written.
    InvalidLiteral(String),
    /// A line of a record definition is none of the accepted forms; carries the
    /// line.
    InvalidLine(String),
}

impl SolStruct {
    /// The model of this record: its name and fields by their characters.
    pub open spec fn model(&self) -> RecordModel
        decreases self,
    {
        RecordModel {
            name: self.name@,
            fields: Seq::new(
                self.fields@.len(),
                |i: int|
                    if 0 <= i < self.fields@.len() {
                        (self.fields@[i].0@, self.fields@[i].1.model())
                    } else {
                        (Seq::empty(), TypeModel::Bool)
                    },
            ),
        }
    }
}

impl SolType {
    /// The model of this type: names by their characters, nested records by
    /// their models.
    pub open spec fn model(&self) -> TypeModel
        decreases self,
    {
        match self {
            SolType::Uint(w) => TypeModel::Uint(*w),
            SolType::Int(w) => TypeModel::Int(*w),
            SolType::Address => TypeModel::Address,
            SolType::Bool => TypeModel::Bool,
            SolType::Bytes(n) => TypeModel::Bytes(*n),
            SolType::BytesArbitrary => TypeModel::BytesArbitrary,
            SolType::Custom(s) => TypeModel::Custom(s.model()),
            SolType::Custom2(name) => TypeModel::Custom2(name@),
            SolType::Mapping(k, v) => TypeModel::Mapping(Box::new(k.model()), Box::new(v.model())),
            SolType::Array(e) => TypeModel::Array(Box::new(e.model())),
            SolType::FixedArray(e, n) => TypeModel::FixedArray(Box::new(e.model()), *n),
        }
    }
}

impl SolStruct {
    /// Whether every field has a well-formed type.
    pub fn is_well_formed(&self) -> (r: bool)
        ensures
            r == self@.wf(),
        decreases self,
    {
        let mut i: usize = 0;
        while i < self.fields.len()
            invariant
                i <= self.fields.len(),
                forall|k: int| 0 <= k < i ==> (#[trigger] self@.fields[k]).1.wf(),
            decreases self.fields.len() - i,
        {
            assert(self@.fields[i as int].1 == self.fields@[i as int].1@);
            if !self.fields[i].1.is_well_formed() {
                return false;
            }
            i = i + 1;
        }
        true
    }
}

impl SolType {
    /// Whether the widths and lengths in this type are those that a type may
    /// have.
    pub fn is_well_formed(&self) -> (r: bool)
        ensures
            r == self@.wf(),
        decreases self,
    {
        match self {
            SolType::Uint(w) => 8 <= *w && *w <= 256 && *w % 8 == 0,
            SolType::Int(w) => 8 <= *w && *w <= 256 && *w % 8 == 0,
            SolType::Bytes(n) => 1 <= *n && *n <= 32,
            SolType::Custom(record) => record.is_well_formed(),
            SolType::Mapping(key, value) => key.is_well_formed() && value.is_well_formed(),
            SolType::Array(elem) => elem.is_well_formed(),
            SolType::FixedArray(elem, _) => elem.is_well_formed(),
            _ => true,
        }
    }
}

impl Clone for SolStruct {
    fn clone(&self) -> (r: SolStruct)
        ensures
            r@ == self@,
        decreases self,
    {
        let mut fields: Vec<(String, SolType)> = Vec::new();
        let mut i: usize = 0;
        while i < self.fields.len()
            invariant
                i <= self.fields.len(),
                fields.len() == i,
                forall|k: int|
                    0 <= k < i ==> (#[trigger] fields@[k]).0@ == self.fields@[k].0@ && fields@[k].1@
                        == self.fields@[k].1@,
            decreases self.fields.len() - i,
        {
            let name = self.fields[i].0.clone();
            let typ = self.fields[i].1.clone();
            fields.push((name, typ));
            i = i + 1;
        }
        let r = SolStruct { name: self.name.clone(), fields };
        assert(r@.fields =~= self@.fields);
        r
    }
}

impl Clone for SolType {
    fn clone(&self) -> (r: SolType)
        ensures
            r@ == self@,
        decreases self,
    {
        match self {
            SolType::Uint(w) => SolType::Uint(*w),
            SolType::Int(w) => SolType::Int(*w),
            SolType::Address => SolType::Address,
            SolType::Bool => SolType::Bool,
            SolType::Bytes(n) => SolType::Bytes(*n),
            SolType::BytesArbitrary => SolType::BytesArbitrary,
            SolType::Custom(s) => SolType::Custom(s.clone()),
            SolType::Custom2(name) => SolType::Custom2(name.clone()),
            SolType::Mapping(k, v) => SolType::Mapping(
                Box::new((**k).clone()),
                Box::new((**v).clone()),
            ),
            SolType::Array(e) => SolType::Array(Box::new((**e).clone())),
            SolType::FixedArray(e, n) => SolType::FixedArray(Box::new((**e).clone()), *n),
        }
    }
}

impl View for SolType {
    type V = TypeModel;

    open spec fn view(&self) -> TypeModel {
        self.model()
    }
}

impl View for SolStruct {
    type V = RecordModel;

    open spec fn view(&self) -> RecordModel {
        self.model()
    }
}

impl View for SizeError {
    type V = SizeErrorModel;

    open spec fn view(&self) -> SizeErrorModel {
        match self {
            SizeError::UnresolvedReference(name) => SizeErrorModel::UnresolvedReference(name@),
            SizeError::RecursionLimitExceeded => SizeErrorModel::RecursionLimitExceeded,
            SizeError::Overflow => SizeErrorModel::Overflow,
        }
    }
}

impl View for ParseError {
    type V = ParseErrorModel;

    open spec fn view(&self) -> ParseErrorModel {
        match self {
            ParseError::MalformedType(text) => ParseErrorModel::MalformedType(text@),
            ParseError::InvalidLiteral(text) => ParseErrorModel::InvalidLiteral(text@),
            ParseError::InvalidLine(text) => ParseErrorModel::InvalidLine(text@),
        }
    }
}

} // verus!
