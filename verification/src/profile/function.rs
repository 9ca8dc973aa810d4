//! A function that locations refer to.

use crate::errors::{ErrorKind, RockError};
use crate::profile::buffer::{
    fields_fault, fields_of, finish_message, read_fields, signed, to_signed, Buffer, BufferView,
};
use crate::profile::{views, Decoder};
use vstd::prelude::*;

verus! {

/// What a `Function` is, as mathematics.
pub struct FunctionView {
    pub id: u64,
    pub name: Seq<char>,
    pub system_name: Seq<char>,
    pub filename: Seq<char>,
    pub start_line: i64,
    pub name_index: i64,
    pub system_name_index: i64,
    pub filename_index: i64,
}

#[derive(Debug, PartialEq, Eq)]
pub struct Function {
    /// Unique nonzero id of the function.
    pub id: u64,
    /// Name in human-readable form.
    pub name: String,
    /// Name as the system identifies it, for instance a mangled name.
    pub system_name: String,
    /// Source file that holds the function.
    pub filename: String,
    /// Line number in the source file.
    pub start_line: i64,
    /// Index of `name` in the string table.
    pub name_index: i64,
    /// Index of `system_name` in the string table.
    pub system_name_index: i64,
    /// Index of `filename` in the string table.
    pub filename_index: i64,
}

impl FunctionView {
    /// The value before any field is decoded.
    pub open spec fn empty() -> FunctionView {
        FunctionView {
            id: 0,
            name: Seq::empty(),
            system_name: Seq::empty(),
            filename: Seq::empty(),
            start_line: 0,
            name_index: 0,
            system_name_index: 0,
            filename_index: 0,
        }
    }
}

impl View for Function {
    type V = FunctionView;

    open spec fn view(&self) -> FunctionView {
        FunctionView {
            id: self.id,
            name: self.name@,
            system_name: self.system_name@,
            filename: self.filename@,
            start_line: self.start_line,
            name_index: self.name_index,
            system_name_index: self.system_name_index,
            filename_index: self.filename_index,
        }
    }
}

impl Default for Function {
    fn default() -> (r: Function)
        ensures
            r@ == FunctionView::empty(),
    {
        Function {
            id: 0,
            name: String::new(),
            system_name: String::new(),
            filename: String::new(),
            start_line: 0,
            name_index: 0,
            system_name_index: 0,
            filename_index: 0,
        }
    }
}

impl Clone for Function {
    fn clone(&self) -> (r: Function)
        ensures
            r@ == self@,
    {
        Function {
            id: self.id,
            name: self.name.clone(),
            system_name: self.system_name.clone(),
            filename: self.filename.clone(),
            start_line: self.start_line,
            name_index: self.name_index,
            system_name_index: self.system_name_index,
            filename_index: self.filename_index,
        }
    }
}

impl Function {
    /// Whether two functions hold the same values.
    pub fn same(&self, other: &Function) -> (r: bool)
        ensures
            r == (self@ == other@),
    {
        self.id == other.id && self.name == other.name && self.system_name == other.system_name
            && self.filename == other.filename && self.start_line == other.start_line
            && self.name_index == other.name_index && self.system_name_index
            == other.system_name_index && self.filename_index == other.filename_index
    }

    /// Whether nothing was ever written to this function.
    pub fn is_default(&self) -> (r: bool)
        ensures
            r == (self@ == FunctionView::empty()),
    {
        let r = self.id == 0 && self.name.as_str().is_empty()
            && self.system_name.as_str().is_empty() && self.filename.as_str().is_empty()
            && self.start_line == 0 && self.name_index == 0 && self.system_name_index == 0
            && self.filename_index == 0;
        proof {
            if r {
                assert(self@.name =~= Seq::<char>::empty());
                assert(self@.system_name =~= Seq::<char>::empty());
                assert(self@.filename =~= Seq::<char>::empty());
            }
        }
        r
    }
}

/// A function after one more field: field 1 is the id, fields 2 to 4 are
/// the indices of the name, the system name and the file name, field 5 is
/// the start line; other fields are passed over.
pub open spec fn function_step(v: FunctionView, f: BufferView) -> FunctionView {
    if f.field == 1 {
        FunctionView { id: f.value, ..v }
    } else if f.field == 2 {
        FunctionView { name_index: signed(f.value), ..v }
    } else if f.field == 3 {
        FunctionView { system_name_index: signed(f.value), ..v }
    } else if f.field == 4 {
        FunctionView { filename_index: signed(f.value), ..v }
    } else if f.field == 5 {
        FunctionView { start_line: signed(f.value), ..v }
    } else {
        v
    }
}

/// The record after all the fields of a list, one after the other.
pub open spec fn function_fold(fields: Seq<BufferView>, v: FunctionView) -> FunctionView
    decreases fields.len(),
{
    if fields.len() == 0 {
        v
    } else {
        function_fold(fields.drop_first(), function_step(v, fields[0]))
    }
}

/// The record that the bytes of a message hold.
pub open spec fn function_of(bytes: Seq<u8>) -> Option<FunctionView> {
    match fields_of(bytes) {
        Some(fields) => Some(function_fold(fields, FunctionView::empty())),
        None => None,
    }
}

impl Function {
    /// Takes one field in.
    pub fn absorb(&mut self, f: &Buffer)
        ensures
            final(self)@ == function_step(old(self)@, f@),
    {
        if f.field == 1 {
            self.id = f.value;
        } else if f.field == 2 {
            self.name_index = to_signed(f.value);
        } else if f.field == 3 {
            self.system_name_index = to_signed(f.value);
        } else if f.field == 4 {
            self.filename_index = to_signed(f.value);
        } else if f.field == 5 {
            self.start_line = to_signed(f.value);
        }
    }

    /// The record that a list of fields makes.
    pub fn from_fields(fields: &Vec<Buffer>) -> (r: Function)
        ensures
            r@ == function_fold(views(fields@), FunctionView::empty()),
    {
        let mut v = Function::default();
        let mut i: usize = 0;
        assert(views(fields@).skip(0) =~= views(fields@));
        while i < fields.len()
            invariant
                i <= fields.len(),
                function_fold(views(fields@), FunctionView::empty()) == function_fold(
                    views(fields@).skip(i as int),
                    v@,
                ),
            decreases fields.len() - i,
        {
            assert(views(fields@).skip(i as int)[0] == fields[i as int]@);
            assert(views(fields@).skip(i as int).drop_first() =~= views(fields@).skip(i + 1));
            v.absorb(&fields[i]);
            i += 1;
        }
        v
    }
}

impl Decoder<Function> for Function {
    open spec fn decoded(bytes: Seq<u8>) -> Option<FunctionView> {
        function_of(bytes)
    }

    open spec fn fault(bytes: Seq<u8>) -> Seq<char> {
        fields_fault(bytes)
    }

    fn decode(buf: &mut Buffer, data: &mut Vec<u8>) -> (r: Result<Function, RockError>) {
        let fields = read_fields(data.as_slice())?;
        let v = Function::from_fields(&fields);
        finish_message(buf, data, fields);
        Ok(v)
    }
}


impl Function {
    /// Decodes the message that `data` holds.
    pub fn read(data: &[u8]) -> (r: Result<Function, RockError>)
        ensures
            match r {
                Ok(x) => function_of(data@) == Some(x@),
                Err(e) => function_of(data@).is_none() && e.kind_of()
                    == ErrorKind::DecodeFieldFailed && e.reason_text() == fields_fault(data@),
            },
    {
        let fields = read_fields(data)?;
        Ok(Function::from_fields(&fields))
    }
}

} // verus!
