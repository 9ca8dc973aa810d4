//! A label of a sample as it stands on the wire.

use crate::errors::{ErrorKind, RockError};
use crate::profile::buffer::{
    fields_fault, fields_of, finish_message, read_fields, signed, to_signed, Buffer, BufferView,
};
use crate::profile::{views, Decoder};
use vstd::prelude::*;

verus! {

/// One label of a sample, by indices into the string table. Of `str_index`
/// and `num_index` at most one is meant to be nonzero.
#[derive(Clone, Copy, Debug, PartialEq, Eq, Structural)]
pub struct Label {
    /// Index of the key in the string table.
    pub key_index: i64,
    /// Index of the text value in the string table; 0 for a numeric label.
    pub str_index: i64,
    /// The numeric value; 0 for a text label.
    pub num_index: i64,
    /// Index of the unit of the numeric value in the string table; 0 when
    /// the value has no unit.
    pub num_unit_index: i64,
}

impl Label {
    /// The label before any field is decoded.
    pub open spec fn empty() -> Label {
        Label { key_index: 0, str_index: 0, num_index: 0, num_unit_index: 0 }
    }
}

impl View for Label {
    type V = Label;

    open spec fn view(&self) -> Label {
        *self
    }
}

impl Default for Label {
    fn default() -> (r: Label)
        ensures
            r == Label::empty(),
    {
        Label { key_index: 0, str_index: 0, num_index: 0, num_unit_index: 0 }
    }
}

/// A label after one more field: field 1 is the index of the key, field
/// 2 the index of the text, field 3 the number, field 4 the index of the
/// unit of the number; other fields are passed over.
pub open spec fn label_step(v: Label, f: BufferView) -> Label {
    if f.field == 1 {
        Label { key_index: signed(f.value), ..v }
    } else if f.field == 2 {
        Label { str_index: signed(f.value), ..v }
    } else if f.field == 3 {
        Label { num_index: signed(f.value), ..v }
    } else if f.field == 4 {
        Label { num_unit_index: signed(f.value), ..v }
    } else {
        v
    }
}

/// The record after all the fields of a list, one after the other.
pub open spec fn label_fold(fields: Seq<BufferView>, v: Label) -> Label
    decreases fields.len(),
{
    if fields.len() == 0 {
        v
    } else {
        label_fold(fields.drop_first(), label_step(v, fields[0]))
    }
}

/// The record that the bytes of a message hold.
pub open spec fn label_of(bytes: Seq<u8>) -> Option<Label> {
    match fields_of(bytes) {
        Some(fields) => Some(label_fold(fields, Label::empty())),
        None => None,
    }
}

impl Label {
    /// Takes one field in.
    pub fn absorb(&mut self, f: &Buffer)
        ensures
            final(self)@ == label_step(old(self)@, f@),
    {
        if f.field == 1 {
            self.key_index = to_signed(f.value);
        } else if f.field == 2 {
            self.str_index = to_signed(f.value);
        } else if f.field == 3 {
            self.num_index = to_signed(f.value);
        } else if f.field == 4 {
            self.num_unit_index = to_signed(f.value);
        }
    }

    /// The record that a list of fields makes.
    pub fn from_fields(fields: &Vec<Buffer>) -> (r: Label)
        ensures
            r@ == label_fold(views(fields@), Label::empty()),
    {
        let mut v = Label::default();
        let mut i: usize = 0;
        assert(views(fields@).skip(0) =~= views(fields@));
        while i < fields.len()
            invariant
                i <= fields.len(),
                label_fold(views(fields@), Label::empty()) == label_fold(
                    views(fields@).skip(i as int),
                    v@,
                ),
            decreases fields.len() - i,
        {
            assert(views(fields@).skip(i as int)[0] == fields[i as int]@);
            assert(views(fields@).skip(i as int).drop_first() =~= views(fields@).skip(i + 1));
            v.absorb(&fields[i]);
            i += 1;
        }
        v
    }
}

impl Decoder<Label> for Label {
    open spec fn decoded(bytes: Seq<u8>) -> Option<Label> {
        label_of(bytes)
    }

    open spec fn fault(bytes: Seq<u8>) -> Seq<char> {
        fields_fault(bytes)
    }

    fn decode(buf: &mut Buffer, data: &mut Vec<u8>) -> (r: Result<Label, RockError>) {
        let fields = read_fields(data.as_slice())?;
        let v = Label::from_fields(&fields);
        finish_message(buf, data, fields);
        Ok(v)
    }
}


impl Label {
    /// Decodes the message that `data` holds.
    pub fn read(data: &[u8]) -> (r: Result<Label, RockError>)
        ensures
            match r {
                Ok(x) => label_of(data@) == Some(x@),
                Err(e) => label_of(data@).is_none() && e.kind_of()
                    == ErrorKind::DecodeFieldFailed && e.reason_text() == fields_fault(data@),
            },
    {
        let fields = read_fields(data)?;
        Ok(Label::from_fields(&fields))
    }
}

} // verus!
