//! The in-memory object model of a profile and the stages that fill it.

use crate::errors::{ErrorKind, RockError};
use crate::profile::buffer::{scratch_after, Buffer};
use crate::profile::function::{Function, FunctionView};
use crate::profile::location::{Location, LocationView};
use crate::profile::mapping::{Mapping, MappingView};
use crate::profile::sample::{Sample, SampleView};
use crate::profile::value_type::{ValueType, ValueTypeView};
use vstd::prelude::*;

pub mod buffer;
pub mod decode;
pub mod function;
pub mod index;
pub mod label;
pub mod laws;
pub mod line;
pub mod link;
pub mod location;
pub mod mapping;
pub mod render;
pub mod sample;
pub mod units;
pub mod validate;
pub mod value_type;

verus! {

/// The values of a list, each as mathematics.
pub open spec fn views<T: View>(s: Seq<T>) -> Seq<T::V> {
    s.map_values(|x: T| x@)
}

/// An optional value as mathematics.
pub open spec fn option_view<T: View>(o: Option<T>) -> Option<T::V> {
    match o {
        Some(x) => Some(x@),
        None => None,
    }
}

/// A message that can be decoded from its bytes.
pub trait Decoder<T: View> {
    /// What the bytes of a message decode to; none where they are
    /// malformed.
    spec fn decoded(bytes: Seq<u8>) -> Option<T::V>;

    /// Why the bytes of a message are malformed, in words.
    spec fn fault(bytes: Seq<u8>) -> Seq<char>;

    /// Decodes the message that `data` holds and uses the bytes up. The
    /// scratch buffer `buf` is left with the last field of the message.
    /// On malformed bytes it fails and leaves `buf` and `data` as they
    /// were.
    fn decode(buf: &mut Buffer, data: &mut Vec<u8>) -> (r: Result<T, RockError>)
        ensures
            match Self::decoded(old(data)@) {
                Some(v) => r matches Ok(x) && x@ == v && final(data)@ == Seq::<u8>::empty()
                    && final(buf)@ == scratch_after(old(data)@, old(buf)@),
                None => r matches Err(e) && e.kind_of() == ErrorKind::DecodeFieldFailed
                    && e.reason_text() == Self::fault(old(data)@) && final(data)@ == old(data)@
                    && final(buf)@ == old(buf)@,
            },
    ;
}

/// What a `Profile` is, as mathematics.
pub struct ProfileView {
    pub sample_type: Seq<ValueTypeView>,
    pub sample: Seq<SampleView>,
    pub mapping: Seq<MappingView>,
    pub location: Seq<LocationView>,
    pub function: Seq<FunctionView>,
    pub string_table: Seq<Seq<char>>,
    pub drop_frames: Seq<char>,
    pub keep_frames: Seq<char>,
    pub time_nanos: i64,
    pub duration_nanos: i64,
    pub period_type: Option<ValueTypeView>,
    pub period: i64,
    pub comments: Seq<Seq<char>>,
    pub default_sample_type: Seq<char>,
    pub comment_index: Seq<i64>,
    pub drop_frames_index: i64,
    pub keep_frames_index: i64,
    pub default_sample_type_index: i64,
}

/// A performance profile in memory.
#[derive(Debug, PartialEq, Eq)]
pub struct Profile {
    /// What each value of a sample means.
    pub sample_type: Vec<ValueType>,
    /// The samples recorded in this profile.
    pub sample: Vec<Sample>,
    /// The binaries mapped into the address space.
    pub mapping: Vec<Mapping>,
    /// The program points that samples refer to.
    pub location: Vec<Location>,
    /// The functions that locations refer to.
    pub function: Vec<Function>,
    /// The table of the strings that the other messages refer to by
    /// index. Its first entry is the empty string.
    pub string_table: Vec<String>,
    /// Frames whose function name matches this expression are dropped.
    pub drop_frames: String,
    /// Frames whose function name matches this expression are kept.
    pub keep_frames: String,
    /// Time of collection, in nanoseconds past the epoch, UTC.
    pub time_nanos: i64,
    /// Duration of the profile in nanoseconds.
    pub duration_nanos: i64,
    /// The kind of events between sampled occurrences.
    pub period_type: Option<ValueType>,
    /// The number of events between sampled occurrences.
    pub period: i64,
    /// Free text that comes with the profile.
    pub comments: Vec<String>,
    /// The type of the preferred sample value.
    pub default_sample_type: String,
    /// Indices of the comments in the string table.
    pub comment_index: Vec<i64>,
    /// Index of `drop_frames` in the string table.
    pub drop_frames_index: i64,
    /// Index of `keep_frames` in the string table.
    pub keep_frames_index: i64,
    /// Index of `default_sample_type` in the string table.
    pub default_sample_type_index: i64,
}

impl ProfileView {
    /// The profile before any field is decoded.
    pub open spec fn empty() -> ProfileView {
        ProfileView {
            sample_type: Seq::empty(),
            sample: Seq::empty(),
            mapping: Seq::empty(),
            location: Seq::empty(),
            function: Seq::empty(),
            string_table: Seq::empty(),
            drop_frames: Seq::empty(),
            keep_frames: Seq::empty(),
            time_nanos: 0,
            duration_nanos: 0,
            period_type: None,
            period: 0,
            comments: Seq::empty(),
            default_sample_type: Seq::empty(),
            comment_index: Seq::empty(),
            drop_frames_index: 0,
            keep_frames_index: 0,
            default_sample_type_index: 0,
        }
    }
}

impl View for Profile {
    type V = ProfileView;

    open spec fn view(&self) -> ProfileView {
        ProfileView {
            sample_type: views(self.sample_type@),
            sample: views(self.sample@),
            mapping: views(self.mapping@),
            location: views(self.location@),
            function: views(self.function@),
            string_table: self.string_table.deep_view(),
            drop_frames: self.drop_frames@,
            keep_frames: self.keep_frames@,
            time_nanos: self.time_nanos,
            duration_nanos: self.duration_nanos,
            period_type: option_view(self.period_type),
            period: self.period,
            comments: self.comments.deep_view(),
            default_sample_type: self.default_sample_type@,
            comment_index: self.comment_index@,
            drop_frames_index: self.drop_frames_index,
            keep_frames_index: self.keep_frames_index,
            default_sample_type_index: self.default_sample_type_index,
        }
    }
}

impl Default for Profile {
    fn default() -> (r: Profile)
        ensures
            r@ == ProfileView::empty(),
    {
        let r = Profile {
            sample_type: Vec::new(),
            sample: Vec::new(),
            mapping: Vec::new(),
            location: Vec::new(),
            function: Vec::new(),
            string_table: Vec::new(),
            drop_frames: String::new(),
            keep_frames: String::new(),
            time_nanos: 0,
            duration_nanos: 0,
            period_type: None,
            period: 0,
            comments: Vec::new(),
            default_sample_type: String::new(),
            comment_index: Vec::new(),
            drop_frames_index: 0,
            keep_frames_index: 0,
            default_sample_type_index: 0,
        };
        proof {
            assert(r@.sample_type =~= Seq::empty());
            assert(r@.sample =~= Seq::empty());
            assert(r@.mapping =~= Seq::empty());
            assert(r@.location =~= Seq::empty());
            assert(r@.function =~= Seq::empty());
            assert(r@.string_table =~= Seq::empty());
            assert(r@.comments =~= Seq::empty());
        }
        r
    }
}

} // verus!
