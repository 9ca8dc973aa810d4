//! The meaning of one column of sample values.

use crate::errors::{ErrorKind, RockError};
use crate::profile::buffer::{
    fields_fault, fields_of, finish_message, read_fields, signed, to_signed, Buffer, BufferView,
};
use crate::profile::{views, Decoder};
use vstd::prelude::*;

verus! {

/// What a `ValueType` is, as mathematics.
pub struct ValueTypeView {
    pub ty: Seq<char>,
    pub unit: Seq<char>,
    pub type_index: i64,
    pub unit_index: i64,
}

/// Describes the semantics and the measurement unit of a value.
#[derive(Debug, PartialEq, Eq)]
pub struct ValueType {
    /// cpu, wall, inuse_space, ...
    pub ty: String,
    /// seconds, nanoseconds, bytes, ...
    pub unit: String,
    /// Index of `ty` in the string table.
    pub type_index: i64,
    /// Index of `unit` in the string table.
    pub unit_index: i64,
}

impl ValueTypeView {
    /// The value before any field is decoded.
    pub open spec fn empty() -> ValueTypeView {
        ValueTypeView { ty: Seq::empty(), unit: Seq::empty(), type_index: 0, unit_index: 0 }
    }
}

impl View for ValueType {
    type V = ValueTypeView;

    open spec fn view(&self) -> ValueTypeView {
        ValueTypeView {
            ty: self.ty@,
            unit: self.unit@,
            type_index: self.type_index,
            unit_index: self.unit_index,
        }
    }
}

impl Default for ValueType {
    fn default() -> (r: ValueType)
        ensures
            r@ == ValueTypeView::empty(),
    {
        ValueType { ty: String::new(), unit: String::new(), type_index: 0, unit_index: 0 }
    }
}

impl Clone for ValueType {
    fn clone(&self) -> (r: ValueType)
        ensures
            r@ == self@,
    {
        ValueType {
            ty: self.ty.clone(),
            unit: self.unit.clone(),
            type_index: self.type_index,
            unit_index: self.unit_index,
        }
    }
}

/// A value type after one more field: field 1 is the index of the type,
/// field 2 the index of the unit; other fields are passed over.
pub open spec fn value_type_step(v: ValueTypeView, f: BufferView) -> ValueTypeView {
    if f.field == 1 {
        ValueTypeView { type_index: signed(f.value), ..v }
    } else if f.field == 2 {
        ValueTypeView { unit_index: signed(f.value), ..v }
    } else {
        v
    }
}

/// A value type after all the fields of a list, one after the other.
pub open spec fn value_type_fold(fields: Seq<BufferView>, v: ValueTypeView) -> ValueTypeView
    decreases fields.len(),
{
    if fields.len() == 0 {
        v
    } else {
        value_type_fold(fields.drop_first(), value_type_step(v, fields[0]))
    }
}

/// The value type that the bytes of a message hold.
pub open spec fn value_type_of(bytes: Seq<u8>) -> Option<ValueTypeView> {
    match fields_of(bytes) {
        Some(fields) => Some(value_type_fold(fields, ValueTypeView::empty())),
        None => None,
    }
}

impl ValueType {
    /// Takes one field in.
    pub fn absorb(&mut self, f: &Buffer)
        ensures
            final(self)@ == value_type_step(old(self)@, f@),
    {
        if f.field == 1 {
            self.type_index = to_signed(f.value);
        } else if f.field == 2 {
            self.unit_index = to_signed(f.value);
        }
    }

    /// The value type that a list of fields makes.
    pub fn from_fields(fields: &Vec<Buffer>) -> (r: ValueType)
        ensures
            r@ == value_type_fold(views(fields@), ValueTypeView::empty()),
    {
        let mut v = ValueType::default();
        let mut i: usize = 0;
        assert(views(fields@).skip(0) =~= views(fields@));
        while i < fields.len()
            invariant
                i <= fields.len(),
                value_type_fold(views(fields@), ValueTypeView::empty()) == value_type_fold(
                    views(fields@).skip(i as int),
                    v@,
                ),
            decreases fields.len() - i,
        {
            assert(views(fields@).skip(i as int)[0] == fields[i as int]@);
            assert(views(fields@).skip(i as int).drop_first() =~= views(fields@).skip(i + 1));
            v.absorb(&fields[i]);
            i += 1;
        }
        v
    }
}

impl Decoder<ValueType> for ValueType {
    open spec fn decoded(bytes: Seq<u8>) -> Option<ValueTypeView> {
        value_type_of(bytes)
    }

    open spec fn fault(bytes: Seq<u8>) -> Seq<char> {
        fields_fault(bytes)
    }

    fn decode(buf: &mut Buffer, data: &mut Vec<u8>) -> (r: Result<ValueType, RockError>) {
        let fields = read_fields(data.as_slice())?;
        let v = ValueType::from_fields(&fields);
        finish_message(buf, data, fields);
        Ok(v)
    }
}


impl ValueType {
    /// Decodes the message that `data` holds.
    pub fn read(data: &[u8]) -> (r: Result<ValueType, RockError>)
        ensures
            match r {
                Ok(x) => value_type_of(data@) == Some(x@),
                Err(e) => value_type_of(data@).is_none() && e.kind_of()
                    == ErrorKind::DecodeFieldFailed && e.reason_text() == fields_fault(data@),
            },
    {
        let fields = read_fields(data)?;
        Ok(ValueType::from_fields(&fields))
    }
}

} // verus!
