//! A region of a binary that is loaded into memory.

use crate::errors::{ErrorKind, RockError};
use crate::profile::buffer::{
    fields_fault, fields_of, finish_message, read_fields, signed, to_signed, Buffer, BufferView,
};
use crate::profile::{views, Decoder};
use vstd::prelude::*;

verus! {

/// What a `Mapping` is, as mathematics.
pub struct MappingView {
    pub id: u64,
    pub memory_start: u64,
    pub memory_limit: u64,
    pub memory_offset: u64,
    pub filename: Seq<char>,
    pub build_id: Seq<char>,
    pub has_function: bool,
    pub has_filenames: bool,
    pub has_line_numbers: bool,
    pub has_inline_frames: bool,
    pub filename_index: i64,
    pub build_id_index: i64,
}

#[derive(Debug, PartialEq, Eq)]
pub struct Mapping {
    /// Unique nonzero id of the mapping.
    pub id: u64,
    /// Address at which the binary is loaded into memory.
    pub memory_start: u64,
    /// The limit of the address range that this mapping occupies.
    pub memory_limit: u64,
    /// Offset in the binary that corresponds to the first mapped address.
    pub memory_offset: u64,
    /// The object this entry is loaded from.
    pub filename: String,
    /// A string that identifies a particular program version.
    pub build_id: String,
    pub has_function: bool,
    pub has_filenames: bool,
    pub has_line_numbers: bool,
    pub has_inline_frames: bool,
    /// Index of `filename` in the string table.
    pub filename_index: i64,
    /// Index of `build_id` in the string table.
    pub build_id_index: i64,
}

impl MappingView {
    /// The value before any field is decoded.
    pub open spec fn empty() -> MappingView {
        MappingView {
            id: 0,
            memory_start: 0,
            memory_limit: 0,
            memory_offset: 0,
            filename: Seq::empty(),
            build_id: Seq::empty(),
            has_function: false,
            has_filenames: false,
            has_line_numbers: false,
            has_inline_frames: false,
            filename_index: 0,
            build_id_index: 0,
        }
    }
}

impl View for Mapping {
    type V = MappingView;

    open spec fn view(&self) -> MappingView {
        MappingView {
            id: self.id,
            memory_start: self.memory_start,
            memory_limit: self.memory_limit,
            memory_offset: self.memory_offset,
            filename: self.filename@,
            build_id: self.build_id@,
            has_function: self.has_function,
            has_filenames: self.has_filenames,
            has_line_numbers: self.has_line_numbers,
            has_inline_frames: self.has_inline_frames,
            filename_index: self.filename_index,
            build_id_index: self.build_id_index,
        }
    }
}

impl Default for Mapping {
    fn default() -> (r: Mapping)
        ensures
            r@ == MappingView::empty(),
    {
        Mapping {
            id: 0,
            memory_start: 0,
            memory_limit: 0,
            memory_offset: 0,
            filename: String::new(),
            build_id: String::new(),
            has_function: false,
            has_filenames: false,
            has_line_numbers: false,
            has_inline_frames: false,
            filename_index: 0,
            build_id_index: 0,
        }
    }
}

impl Clone for Mapping {
    fn clone(&self) -> (r: Mapping)
        ensures
            r@ == self@,
    {
        Mapping {
            id: self.id,
            memory_start: self.memory_start,
            memory_limit: self.memory_limit,
            memory_offset: self.memory_offset,
            filename: self.filename.clone(),
            build_id: self.build_id.clone(),
            has_function: self.has_function,
            has_filenames: self.has_filenames,
            has_line_numbers: self.has_line_numbers,
            has_inline_frames: self.has_inline_frames,
            filename_index: self.filename_index,
            build_id_index: self.build_id_index,
        }
    }
}

impl Mapping {
    /// Whether two mappings hold the same values.
    pub fn same(&self, other: &Mapping) -> (r: bool)
        ensures
            r == (self@ == other@),
    {
        self.id == other.id && self.memory_start == other.memory_start && self.memory_limit
            == other.memory_limit && self.memory_offset == other.memory_offset && self.filename
            == other.filename && self.build_id == other.build_id && self.has_function
            == other.has_function && self.has_filenames == other.has_filenames
            && self.has_line_numbers == other.has_line_numbers && self.has_inline_frames
            == other.has_inline_frames && self.filename_index == other.filename_index
            && self.build_id_index == other.build_id_index
    }

    /// Whether nothing was ever written to this mapping.
    pub fn is_default(&self) -> (r: bool)
        ensures
            r == (self@ == MappingView::empty()),
    {
        let r = self.id == 0 && self.memory_start == 0 && self.memory_limit == 0
            && self.memory_offset == 0 && self.filename.as_str().is_empty()
            && self.build_id.as_str().is_empty() && !self.has_function && !self.has_filenames
            && !self.has_line_numbers && !self.has_inline_frames && self.filename_index == 0
            && self.build_id_index == 0;
        proof {
            if r {
                assert(self@.filename =~= Seq::<char>::empty());
                assert(self@.build_id =~= Seq::<char>::empty());
            }
        }
        r
    }
}

/// A mapping after one more field: field 1 is the id, fields 2 to 4 are
/// the start, the limit and the offset, fields 5 and 6 the indices of the
/// file name and the build id, fields 7 to 10 the four capabilities, set
/// by a value other than 0; other fields are passed over.
pub open spec fn mapping_step(v: MappingView, f: BufferView) -> MappingView {
    if f.field == 1 {
        MappingView { id: f.value, ..v }
    } else if f.field == 2 {
        MappingView { memory_start: f.value, ..v }
    } else if f.field == 3 {
        MappingView { memory_limit: f.value, ..v }
    } else if f.field == 4 {
        MappingView { memory_offset: f.value, ..v }
    } else if f.field == 5 {
        MappingView { filename_index: signed(f.value), ..v }
    } else if f.field == 6 {
        MappingView { build_id_index: signed(f.value), ..v }
    } else if f.field == 7 {
        MappingView { has_function: f.value != 0, ..v }
    } else if f.field == 8 {
        MappingView { has_filenames: f.value != 0, ..v }
    } else if f.field == 9 {
        MappingView { has_line_numbers: f.value != 0, ..v }
    } else if f.field == 10 {
        MappingView { has_inline_frames: f.value != 0, ..v }
    } else {
        v
    }
}

/// The record after all the fields of a list, one after the other.
pub open spec fn mapping_fold(fields: Seq<BufferView>, v: MappingView) -> MappingView
    decreases fields.len(),
{
    if fields.len() == 0 {
        v
    } else {
        mapping_fold(fields.drop_first(), mapping_step(v, fields[0]))
    }
}

/// The record that the bytes of a message hold.
pub open spec fn mapping_of(bytes: Seq<u8>) -> Option<MappingView> {
    match fields_of(bytes) {
        Some(fields) => Some(mapping_fold(fields, MappingView::empty())),
        None => None,
    }
}

impl Mapping {
    /// Takes one field in.
    pub fn absorb(&mut self, f: &Buffer)
        ensures
            final(self)@ == mapping_step(old(self)@, f@),
    {
        if f.field == 1 {
            self.id = f.value;
        } else if f.field == 2 {
            self.memory_start = f.value;
        } else if f.field == 3 {
            self.memory_limit = f.value;
        } else if f.field == 4 {
            self.memory_offset = f.value;
        } else if f.field == 5 {
            self.filename_index = to_signed(f.value);
        } else if f.field == 6 {
            self.build_id_index = to_signed(f.value);
        } else if f.field == 7 {
            self.has_function = f.value != 0;
        } else if f.field == 8 {
            self.has_filenames = f.value != 0;
        } else if f.field == 9 {
            self.has_line_numbers = f.value != 0;
        } else if f.field == 10 {
            self.has_inline_frames = f.value != 0;
        }
    }

    /// The record that a list of fields makes.
    pub fn from_fields(fields: &Vec<Buffer>) -> (r: Mapping)
        ensures
            r@ == mapping_fold(views(fields@), MappingView::empty()),
    {
        let mut v = Mapping::default();
        let mut i: usize = 0;
        assert(views(fields@).skip(0) =~= views(fields@));
        while i < fields.len()
            invariant
                i <= fields.len(),
                mapping_fold(views(fields@), MappingView::empty()) == mapping_fold(
                    views(fields@).skip(i as int),
                    v@,
                ),
            decreases fields.len() - i,
        {
            assert(views(fields@).skip(i as int)[0] == fields[i as int]@);
            assert(views(fields@).skip(i as int).drop_first() =~= views(fields@).skip(i + 1));
            v.absorb(&fields[i]);
            i += 1;
        }
        v
    }
}

impl Decoder<Mapping> for Mapping {
    open spec fn decoded(bytes: Seq<u8>) -> Option<MappingView> {
        mapping_of(bytes)
    }

    open spec fn fault(bytes: Seq<u8>) -> Seq<char> {
        fields_fault(bytes)
    }

    fn decode(buf: &mut Buffer, data: &mut Vec<u8>) -> (r: Result<Mapping, RockError>) {
        let fields = read_fields(data.as_slice())?;
        let v = Mapping::from_fields(&fields);
        finish_message(buf, data, fields);
        Ok(v)
    }
}


impl Mapping {
    /// Decodes the message that `data` holds.
    pub fn read(data: &[u8]) -> (r: Result<Mapping, RockError>)
        ensures
            match r {
                Ok(x) => mapping_of(data@) == Some(x@),
                Err(e) => mapping_of(data@).is_none() && e.kind_of()
                    == ErrorKind::DecodeFieldFailed && e.reason_text() == fields_fault(data@),
            },
    {
        let fields = read_fields(data)?;
        Ok(Mapping::from_fields(&fields))
    }
}

} // verus!
