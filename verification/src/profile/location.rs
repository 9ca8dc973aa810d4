//! A program point: an address with the frames inlined at it.

use crate::errors::{ErrorKind, RockError};
use crate::profile::buffer::{
    fields_fault, fields_of, finish_message, read_fields, Buffer, BufferView,
};
use crate::profile::line::{clone_lines, line_of, same_lines, Line, LineView};
use crate::profile::Decoder;
use crate::profile::mapping::{Mapping, MappingView};
use crate::profile::{option_view, views};
use vstd::prelude::*;

verus! {

/// What a `Location` is, as mathematics.
pub struct LocationView {
    pub id: u64,
    pub mapping_index: u64,
    pub address: u64,
    pub line: Seq<LineView>,
    pub is_folder: bool,
    pub mapping: Option<MappingView>,
}

#[derive(Debug, PartialEq, Eq)]
pub struct Location {
    /// Unique nonzero id of the location.
    pub id: u64,
    /// The id of the mapping of this location; 0 when there is none.
    pub mapping_index: u64,
    /// The instruction address.
    pub address: u64,
    /// The frames at this address. The last one is the caller into which
    /// the others were inlined.
    pub line: Vec<Line>,
    /// Whether several symbols map to this address, as after identical
    /// code folding.
    pub is_folder: bool,
    /// The mapping of this location once the profile is linked.
    pub mapping: Option<Mapping>,
}

impl LocationView {
    /// The value before any field is decoded.
    pub open spec fn empty() -> LocationView {
        LocationView {
            id: 0,
            mapping_index: 0,
            address: 0,
            line: Seq::empty(),
            is_folder: false,
            mapping: None,
        }
    }
}

impl View for Location {
    type V = LocationView;

    open spec fn view(&self) -> LocationView {
        LocationView {
            id: self.id,
            mapping_index: self.mapping_index,
            address: self.address,
            line: views(self.line@),
            is_folder: self.is_folder,
            mapping: option_view(self.mapping),
        }
    }
}

impl Default for Location {
    fn default() -> (r: Location)
        ensures
            r@ == LocationView::empty(),
    {
        let r = Location {
            id: 0,
            mapping_index: 0,
            address: 0,
            line: Vec::new(),
            is_folder: false,
            mapping: None,
        };
        assert(r@.line =~= Seq::<LineView>::empty());
        r
    }
}

impl Clone for Location {
    fn clone(&self) -> (r: Location)
        ensures
            r@ == self@,
    {
        Location {
            id: self.id,
            mapping_index: self.mapping_index,
            address: self.address,
            line: clone_lines(&self.line),
            is_folder: self.is_folder,
            mapping: match &self.mapping {
                Some(m) => Some(m.clone()),
                None => None,
            },
        }
    }
}

impl Location {
    /// Whether two locations hold the same values.
    pub fn same(&self, other: &Location) -> (r: bool)
        ensures
            r == (self@ == other@),
    {
        let same_mapping = match (&self.mapping, &other.mapping) {
            (Some(a), Some(b)) => a.same(b),
            (None, None) => true,
            _ => false,
        };
        self.id == other.id && self.mapping_index == other.mapping_index && self.address
            == other.address && self.is_folder == other.is_folder && same_mapping && same_lines(
            &self.line,
            &other.line,
        )
    }

    /// Whether nothing was ever written to this location.
    pub fn is_default(&self) -> (r: bool)
        ensures
            r == (self@ == LocationView::empty()),
    {
        let r = self.id == 0 && self.mapping_index == 0 && self.address == 0 && self.line.len()
            == 0 && !self.is_folder && self.mapping.is_none();
        proof {
            if r {
                assert(self@.line =~= Seq::<LineView>::empty());
            } else if self.line.len() != 0 {
                assert(self@.line.len() != 0);
            }
        }
        r
    }
}

/// A location after one more field: field 1 is the id, field 2 the id of
/// the mapping, field 3 the address, field 4 one more frame, field 5 the
/// folding mark, set by a value other than 0; other fields are passed over.
/// There is none where the bytes of a frame are malformed.
pub open spec fn location_step(v: LocationView, f: BufferView) -> Option<LocationView> {
    if f.field == 1 {
        Some(LocationView { id: f.value, ..v })
    } else if f.field == 2 {
        Some(LocationView { mapping_index: f.value, ..v })
    } else if f.field == 3 {
        Some(LocationView { address: f.value, ..v })
    } else if f.field == 4 {
        match line_of(f.data) {
            Some(ln) => Some(LocationView { line: v.line.push(ln), ..v }),
            None => None,
        }
    } else if f.field == 5 {
        Some(LocationView { is_folder: f.value != 0, ..v })
    } else {
        Some(v)
    }
}

/// The record after all the fields of a list, one after the other.
pub open spec fn location_fold(fields: Seq<BufferView>, v: LocationView) -> Option<LocationView>
    decreases fields.len(),
{
    if fields.len() == 0 {
        Some(v)
    } else {
        match location_step(v, fields[0]) {
            Some(next) => location_fold(fields.drop_first(), next),
            None => None,
        }
    }
}

/// Why a list of fields makes no location, in words: the fault of the
/// first frame that is malformed.
pub open spec fn location_fold_fault(fields: Seq<BufferView>, v: LocationView) -> Seq<char>
    decreases fields.len(),
{
    if fields.len() == 0 {
        Seq::empty()
    } else {
        match location_step(v, fields[0]) {
            Some(next) => location_fold_fault(fields.drop_first(), next),
            None => fields_fault(fields[0].data),
        }
    }
}

/// Why the bytes of a message hold no location, in words.
pub open spec fn location_decode_fault(bytes: Seq<u8>) -> Seq<char> {
    match fields_of(bytes) {
        Some(fields) => location_fold_fault(fields, LocationView::empty()),
        None => fields_fault(bytes),
    }
}

/// The location that the bytes of a message hold.
pub open spec fn location_of(bytes: Seq<u8>) -> Option<LocationView> {
    match fields_of(bytes) {
        Some(fields) => location_fold(fields, LocationView::empty()),
        None => None,
    }
}

impl Location {
    /// Takes one field in. Where the field is malformed the location is
    /// left as it was.
    pub fn absorb(&mut self, f: &Buffer) -> (r: Result<(), RockError>)
        ensures
            match location_step(old(self)@, f@) {
                Some(next) => r is Ok && final(self)@ == next,
                None => r matches Err(e) && e.kind_of() == ErrorKind::DecodeFieldFailed
                    && e.reason_text() == fields_fault(f@.data) && final(self)@ == old(self)@,
            },
    {
        if f.field == 1 {
            self.id = f.value;
        } else if f.field == 2 {
            self.mapping_index = f.value;
        } else if f.field == 3 {
            self.address = f.value;
        } else if f.field == 4 {
            let ln = Line::read(f.data.as_slice())?;
            let ghost before = views(self.line@);
            self.line.push(ln);
            assert(views(self.line@) =~= before.push(ln@));
        } else if f.field == 5 {
            self.is_folder = f.value != 0;
        }
        Ok(())
    }

    /// The location that a list of fields makes.
    pub fn from_fields(fields: &Vec<Buffer>) -> (r: Result<Location, RockError>)
        ensures
            match r {
                Ok(x) => location_fold(views(fields@), LocationView::empty()) == Some(x@),
                Err(e) => location_fold(views(fields@), LocationView::empty()).is_none()
                    && e.kind_of() == ErrorKind::DecodeFieldFailed && e.reason_text()
                    == location_fold_fault(views(fields@), LocationView::empty()),
            },
    {
        let mut v = Location::default();
        let mut i: usize = 0;
        assert(views(fields@).skip(0) =~= views(fields@));
        while i < fields.len()
            invariant
                i <= fields.len(),
                location_fold(views(fields@), LocationView::empty()) == location_fold(
                    views(fields@).skip(i as int),
                    v@,
                ),
                location_fold_fault(views(fields@), LocationView::empty())
                    == location_fold_fault(views(fields@).skip(i as int), v@),
            decreases fields.len() - i,
        {
            assert(views(fields@).skip(i as int)[0] == fields[i as int]@);
            assert(views(fields@).skip(i as int).drop_first() =~= views(fields@).skip(i + 1));
            v.absorb(&fields[i])?;
            i += 1;
        }
        Ok(v)
    }

    /// Decodes the message that `data` holds.
    pub fn read(data: &[u8]) -> (r: Result<Location, RockError>)
        ensures
            match r {
                Ok(x) => location_of(data@) == Some(x@),
                Err(e) => location_of(data@).is_none() && e.kind_of()
                    == ErrorKind::DecodeFieldFailed && e.reason_text() == location_decode_fault(
                    data@,
                ),
            },
    {
        let fields = read_fields(data)?;
        Location::from_fields(&fields)
    }
}

impl Decoder<Location> for Location {
    open spec fn decoded(bytes: Seq<u8>) -> Option<LocationView> {
        location_of(bytes)
    }

    open spec fn fault(bytes: Seq<u8>) -> Seq<char> {
        location_decode_fault(bytes)
    }

    fn decode(buf: &mut Buffer, data: &mut Vec<u8>) -> (r: Result<Location, RockError>) {
        let fields = read_fields(data.as_slice())?;
        let v = Location::from_fields(&fields)?;
        finish_message(buf, data, fields);
        Ok(v)
    }
}

} // verus!
