//! One frame of a location.

use crate::profile::function::{Function, FunctionView};
use crate::profile::views;
use crate::errors::{ErrorKind, RockError};
use crate::profile::buffer::{
    fields_fault, fields_of, finish_message, read_fields, signed, to_signed, Buffer, BufferView,
};
use crate::profile::Decoder;
use vstd::prelude::*;

verus! {

/// What a `Line` is, as mathematics.
pub struct LineView {
    pub line: i64,
    pub function_index: u64,
    pub function: FunctionView,
}

#[derive(Debug, PartialEq, Eq)]
pub struct Line {
    /// Line number in the source code.
    pub line: i64,
    /// The id of the function of this frame; 0 when there is none.
    pub function_index: u64,
    /// The function of this frame once the profile is linked.
    pub function: Function,
}

impl LineView {
    /// The value before any field is decoded.
    pub open spec fn empty() -> LineView {
        LineView { line: 0, function_index: 0, function: FunctionView::empty() }
    }
}

impl View for Line {
    type V = LineView;

    open spec fn view(&self) -> LineView {
        LineView {
            line: self.line,
            function_index: self.function_index,
            function: self.function@,
        }
    }
}

impl Default for Line {
    fn default() -> (r: Line)
        ensures
            r@ == LineView::empty(),
    {
        Line { line: 0, function_index: 0, function: Function::default() }
    }
}

impl Clone for Line {
    fn clone(&self) -> (r: Line)
        ensures
            r@ == self@,
    {
        Line {
            line: self.line,
            function_index: self.function_index,
            function: self.function.clone(),
        }
    }
}

impl Line {
    /// Whether two frames hold the same values.
    pub fn same(&self, other: &Line) -> (r: bool)
        ensures
            r == (self@ == other@),
    {
        self.line == other.line && self.function_index == other.function_index
            && self.function.same(&other.function)
    }
}

/// A copy of a list of frames.
pub fn clone_lines(lines: &Vec<Line>) -> (r: Vec<Line>)
    ensures
        views(r@) == views(lines@),
{
    let mut out: Vec<Line> = Vec::new();
    let mut i: usize = 0;
    while i < lines.len()
        invariant
            i <= lines.len(),
            out.len() == i,
            forall|j: int| 0 <= j < i ==> out[j]@ == lines[j]@,
        decreases lines.len() - i,
    {
        out.push(lines[i].clone());
        i += 1;
    }
    assert(views(out@) =~= views(lines@));
    out
}

/// Whether two lists of frames hold the same values.
pub fn same_lines(a: &Vec<Line>, b: &Vec<Line>) -> (r: bool)
    ensures
        r == (views(a@) == views(b@)),
{
    if a.len() != b.len() {
        assert(views(a@).len() != views(b@).len());
        return false;
    }
    let mut i: usize = 0;
    while i < a.len()
        invariant
            i <= a.len(),
            a.len() == b.len(),
            forall|j: int| 0 <= j < i ==> a[j]@ == b[j]@,
        decreases a.len() - i,
    {
        if !a[i].same(&b[i]) {
            assert(views(a@)[i as int] != views(b@)[i as int]);
            return false;
        }
        i += 1;
    }
    assert(views(a@) =~= views(b@));
    true
}

/// A frame after one more field: field 1 is the id of the function,
/// field 2 the line number; other fields are passed over.
pub open spec fn line_step(v: LineView, f: BufferView) -> LineView {
    if f.field == 1 {
        LineView { function_index: f.value, ..v }
    } else if f.field == 2 {
        LineView { line: signed(f.value), ..v }
    } else {
        v
    }
}

/// The record after all the fields of a list, one after the other.
pub open spec fn line_fold(fields: Seq<BufferView>, v: LineView) -> LineView
    decreases fields.len(),
{
    if fields.len() == 0 {
        v
    } else {
        line_fold(fields.drop_first(), line_step(v, fields[0]))
    }
}

/// The record that the bytes of a message hold.
pub open spec fn line_of(bytes: Seq<u8>) -> Option<LineView> {
    match fields_of(bytes) {
        Some(fields) => Some(line_fold(fields, LineView::empty())),
        None => None,
    }
}

impl Line {
    /// Takes one field in.
    pub fn absorb(&mut self, f: &Buffer)
        ensures
            final(self)@ == line_step(old(self)@, f@),
    {
        if f.field == 1 {
            self.function_index = f.value;
        } else if f.field == 2 {
            self.line = to_signed(f.value);
        }
    }

    /// The record that a list of fields makes.
    pub fn from_fields(fields: &Vec<Buffer>) -> (r: Line)
        ensures
            r@ == line_fold(views(fields@), LineView::empty()),
    {
        let mut v = Line::default();
        let mut i: usize = 0;
        assert(views(fields@).skip(0) =~= views(fields@));
        while i < fields.len()
            invariant
                i <= fields.len(),
                line_fold(views(fields@), LineView::empty()) == line_fold(
                    views(fields@).skip(i as int),
                    v@,
                ),
            decreases fields.len() - i,
        {
            assert(views(fields@).skip(i as int)[0] == fields[i as int]@);
            assert(views(fields@).skip(i as int).drop_first() =~= views(fields@).skip(i + 1));
            v.absorb(&fields[i]);
            i += 1;
        }
        v
    }
}

impl Decoder<Line> for Line {
    open spec fn decoded(bytes: Seq<u8>) -> Option<LineView> {
        line_of(bytes)
    }

    open spec fn fault(bytes: Seq<u8>) -> Seq<char> {
        fields_fault(bytes)
    }

    fn decode(buf: &mut Buffer, data: &mut Vec<u8>) -> (r: Result<Line, RockError>) {
        let fields = read_fields(data.as_slice())?;
        let v = Line::from_fields(&fields);
        finish_message(buf, data, fields);
        Ok(v)
    }
}


impl Line {
    /// Decodes the message that `data` holds.
    pub fn read(data: &[u8]) -> (r: Result<Line, RockError>)
        ensures
            match r {
                Ok(x) => line_of(data@) == Some(x@),
                Err(e) => line_of(data@).is_none() && e.kind_of()
                    == ErrorKind::DecodeFieldFailed && e.reason_text() == fields_fault(data@),
            },
    {
        let fields = read_fields(data)?;
        Ok(Line::from_fields(&fields))
    }
}

} // verus!
