//! One observation: a weighted call stack with its labels.

use crate::errors::{ErrorKind, RockError};
use crate::keyed::KeyedList;
use crate::profile::buffer::{
    fields_fault, fields_of, finish_message, malformed, read_fields, read_varints, signed,
    to_signed, varints_of, Buffer, BufferView, WireTypes,
};
use crate::profile::label::{label_of, Label};
use crate::profile::Decoder;
use crate::profile::location::{Location, LocationView};
use crate::profile::views;
use vstd::prelude::*;

verus! {

/// What a `Sample` is, as mathematics. The three label maps are lists of
/// entries in the ascending order of their keys.
pub struct SampleView {
    pub location: Seq<LocationView>,
    pub value: Seq<i64>,
    pub label: Seq<(Seq<char>, Seq<Seq<char>>)>,
    pub num_label: Seq<(Seq<char>, Seq<i64>)>,
    pub num_unit_label: Seq<(Seq<char>, Seq<Seq<char>>)>,
    pub location_index: Seq<u64>,
    pub label_index: Seq<Label>,
}

#[derive(Debug, PartialEq, Eq)]
pub struct Sample {
    /// The locations of the call stack, the leaf first, once the profile
    /// is linked.
    pub location: Vec<Location>,
    /// One value for each sample type of the profile.
    pub value: Vec<i64>,
    /// Text labels: key to the values in the order of the wire.
    pub label: KeyedList<Vec<String>>,
    /// Numeric labels: key to the values in the order of the wire.
    pub num_label: KeyedList<Vec<i64>>,
    /// The units of the numeric labels: key to one unit for each value of
    /// `num_label` under that key, empty where the value had none.
    pub num_unit_label: KeyedList<Vec<String>>,
    /// The ids of the locations of the call stack, the leaf first.
    pub location_index: Vec<u64>,
    /// The labels as they stand on the wire.
    pub label_index: Vec<Label>,
}

impl SampleView {
    /// The value before any field is decoded.
    pub open spec fn empty() -> SampleView {
        SampleView {
            location: Seq::empty(),
            value: Seq::empty(),
            label: Seq::empty(),
            num_label: Seq::empty(),
            num_unit_label: Seq::empty(),
            location_index: Seq::empty(),
            label_index: Seq::empty(),
        }
    }
}

impl View for Sample {
    type V = SampleView;

    open spec fn view(&self) -> SampleView {
        SampleView {
            location: views(self.location@),
            value: self.value@,
            label: self.label.model(),
            num_label: self.num_label.model(),
            num_unit_label: self.num_unit_label.model(),
            location_index: self.location_index@,
            label_index: self.label_index@,
        }
    }
}

impl Default for Sample {
    fn default() -> (r: Sample)
        ensures
            r@ == SampleView::empty(),
    {
        let r = Sample {
            location: Vec::new(),
            value: Vec::new(),
            label: KeyedList::new(),
            num_label: KeyedList::new(),
            num_unit_label: KeyedList::new(),
            location_index: Vec::new(),
            label_index: Vec::new(),
        };
        assert(r@.location =~= Seq::<LocationView>::empty());
        r
    }
}

impl Sample {
    /// Whether nothing was ever written to this sample.
    pub fn is_default(&self) -> (r: bool)
        ensures
            r == (self@ == SampleView::empty()),
    {
        let r = self.location.len() == 0 && self.value.len() == 0 && self.label.is_empty()
            && self.num_label.is_empty() && self.num_unit_label.is_empty()
            && self.location_index.len() == 0 && self.label_index.len() == 0;
        proof {
            if r {
                assert(self@.location =~= Seq::<LocationView>::empty());
                assert(self@.value =~= Seq::<i64>::empty());
                assert(self@.label =~= Seq::empty());
                assert(self@.num_label =~= Seq::empty());
                assert(self@.num_unit_label =~= Seq::empty());
                assert(self@.location_index =~= Seq::<u64>::empty());
                assert(self@.label_index =~= Seq::<Label>::empty());
            } else {
                assert(self@.location.len() == self.location.len());
            }
        }
        r
    }
}

/// Wire values read as signed ones.
pub open spec fn signed_all(values: Seq<u64>) -> Seq<i64> {
    values.map_values(|v: u64| signed(v))
}

/// The integers that one field of a repeated integer holds: all the
/// varints of a length-delimited field, the one value of a varint field.
/// There is none for another wire type, or where the region is malformed.
pub open spec fn repeated_of(f: BufferView) -> Option<Seq<u64>> {
    match f.ty {
        WireTypes::WireBytes => varints_of(f.data),
        WireTypes::WireVarint => Some(seq![f.value]),
        _ => None,
    }
}

/// A sample after one more field: field 1 holds location ids, field 2
/// values, field 3 one more label; other fields are passed over. There
/// is none where the field is malformed.
pub open spec fn sample_step(v: SampleView, f: BufferView) -> Option<SampleView> {
    if f.field == 1 {
        match repeated_of(f) {
            Some(ids) => Some(SampleView { location_index: v.location_index + ids, ..v }),
            None => None,
        }
    } else if f.field == 2 {
        match repeated_of(f) {
            Some(values) => Some(SampleView { value: v.value + signed_all(values), ..v }),
            None => None,
        }
    } else if f.field == 3 {
        match label_of(f.data) {
            Some(label) => Some(SampleView { label_index: v.label_index.push(label), ..v }),
            None => None,
        }
    } else {
        Some(v)
    }
}

/// The record after all the fields of a list, one after the other.
pub open spec fn sample_fold(fields: Seq<BufferView>, v: SampleView) -> Option<SampleView>
    decreases fields.len(),
{
    if fields.len() == 0 {
        Some(v)
    } else {
        match sample_step(v, fields[0]) {
            Some(next) => sample_fold(fields.drop_first(), next),
            None => None,
        }
    }
}

/// Why a field of a repeated integer holds no integers, in words.
pub open spec fn repeated_fault(f: BufferView) -> Seq<char> {
    match f.ty {
        WireTypes::WireBytes => "bad varint"@,
        _ => "value is not varint type"@,
    }
}

/// Why a field cannot be taken into a sample, in words.
pub open spec fn sample_step_fault(f: BufferView) -> Seq<char> {
    if f.field == 1 || f.field == 2 {
        repeated_fault(f)
    } else {
        fields_fault(f.data)
    }
}

/// Why a list of fields makes no sample, in words: the fault of the
/// first field that is malformed.
pub open spec fn sample_fold_fault(fields: Seq<BufferView>, v: SampleView) -> Seq<char>
    decreases fields.len(),
{
    if fields.len() == 0 {
        Seq::empty()
    } else {
        match sample_step(v, fields[0]) {
            Some(next) => sample_fold_fault(fields.drop_first(), next),
            None => sample_step_fault(fields[0]),
        }
    }
}

/// Why the bytes of a message hold no sample, in words.
pub open spec fn sample_decode_fault(bytes: Seq<u8>) -> Seq<char> {
    match fields_of(bytes) {
        Some(fields) => sample_fold_fault(fields, SampleView::empty()),
        None => fields_fault(bytes),
    }
}

/// The sample that the bytes of a message hold.
pub open spec fn sample_of(bytes: Seq<u8>) -> Option<SampleView> {
    match fields_of(bytes) {
        Some(fields) => sample_fold(fields, SampleView::empty()),
        None => None,
    }
}

/// The integers that one field of a repeated integer holds.
pub fn read_repeated(f: &Buffer) -> (r: Result<Vec<u64>, RockError>)
    ensures
        match r {
            Ok(values) => repeated_of(f@) == Some(values@),
            Err(e) => repeated_of(f@).is_none() && e.kind_of() == ErrorKind::DecodeFieldFailed
                && e.reason_text() == repeated_fault(f@),
        },
{
    match f.ty {
        WireTypes::WireBytes => read_varints(f.data.as_slice()),
        WireTypes::WireVarint => {
            let mut out: Vec<u64> = Vec::new();
            out.push(f.value);
            assert(out@ =~= seq![f.value]);
            Ok(out)
        },
        _ => Err(malformed("value is not varint type")),
    }
}

/// Adds wire values, read as signed ones, to the end of a list.
pub fn push_signed_all(out: &mut Vec<i64>, values: &Vec<u64>)
    ensures
        final(out)@ == old(out)@ + signed_all(values@),
{
    let mut i: usize = 0;
    assert(out@ =~= old(out)@ + signed_all(values@.take(0)));
    while i < values.len()
        invariant
            i <= values.len(),
            out@ == old(out)@ + signed_all(values@.take(i as int)),
        decreases values.len() - i,
    {
        out.push(to_signed(values[i]));
        i += 1;
        assert(out@ =~= old(out)@ + signed_all(values@.take(i as int)));
    }
    assert(values@.take(i as int) =~= values@);
}

impl Sample {
    /// Takes one field in. Where the field is malformed the sample is
    /// left as it was.
    pub fn absorb(&mut self, f: &Buffer) -> (r: Result<(), RockError>)
        ensures
            match sample_step(old(self)@, f@) {
                Some(next) => r is Ok && final(self)@ == next,
                None => r matches Err(e) && e.kind_of() == ErrorKind::DecodeFieldFailed
                    && e.reason_text() == sample_step_fault(f@) && final(self)@ == old(self)@,
            },
    {
        if f.field == 1 {
            let mut ids = read_repeated(f)?;
            self.location_index.append(&mut ids);
        } else if f.field == 2 {
            let values = read_repeated(f)?;
            push_signed_all(&mut self.value, &values);
        } else if f.field == 3 {
            let label = Label::read(f.data.as_slice())?;
            self.label_index.push(label);
        }
        Ok(())
    }

    /// The sample that a list of fields makes.
    pub fn from_fields(fields: &Vec<Buffer>) -> (r: Result<Sample, RockError>)
        ensures
            match r {
                Ok(x) => sample_fold(views(fields@), SampleView::empty()) == Some(x@),
                Err(e) => sample_fold(views(fields@), SampleView::empty()).is_none()
                    && e.kind_of() == ErrorKind::DecodeFieldFailed && e.reason_text()
                    == sample_fold_fault(views(fields@), SampleView::empty()),
            },
    {
        let mut v = Sample::default();
        let mut i: usize = 0;
        assert(views(fields@).skip(0) =~= views(fields@));
        while i < fields.len()
            invariant
                i <= fields.len(),
                sample_fold(views(fields@), SampleView::empty()) == sample_fold(
                    views(fields@).skip(i as int),
                    v@,
                ),
                sample_fold_fault(views(fields@), SampleView::empty()) == sample_fold_fault(
                    views(fields@).skip(i as int),
                    v@,
                ),
            decreases fields.len() - i,
        {
            assert(views(fields@).skip(i as int)[0] == fields[i as int]@);
            assert(views(fields@).skip(i as int).drop_first() =~= views(fields@).skip(i + 1));
            v.absorb(&fields[i])?;
            i += 1;
        }
        Ok(v)
    }

    /// Decodes the message that `data` holds.
    pub fn read(data: &[u8]) -> (r: Result<Sample, RockError>)
        ensures
            match r {
                Ok(x) => sample_of(data@) == Some(x@),
                Err(e) => sample_of(data@).is_none() && e.kind_of()
                    == ErrorKind::DecodeFieldFailed && e.reason_text() == sample_decode_fault(
                    data@,
                ),
            },
    {
        let fields = read_fields(data)?;
        Sample::from_fields(&fields)
    }
}

impl Decoder<Sample> for Sample {
    open spec fn decoded(bytes: Seq<u8>) -> Option<SampleView> {
        sample_of(bytes)
    }

    open spec fn fault(bytes: Seq<u8>) -> Seq<char> {
        sample_decode_fault(bytes)
    }

    fn decode(buf: &mut Buffer, data: &mut Vec<u8>) -> (r: Result<Sample, RockError>) {
        let fields = read_fields(data.as_slice())?;
        let v = Sample::from_fields(&fields)?;
        finish_message(buf, data, fields);
        Ok(v)
    }
}

} // verus!
