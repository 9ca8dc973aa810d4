//! Decoding a whole profile: the fields of the top-level message, the
//! gzip envelope, and the stages that follow.

use crate::errors::{ErrorKind, RockError};
use crate::profile::buffer::{
    decode_string, fields_fault, fields_of, finish_message, malformed, read_fields,
    read_varints, scratch_after, signed, text_of_bytes, to_signed, varints_of, Buffer,
    BufferView, WireTypes,
};
use crate::profile::function::{function_of, Function};
use crate::profile::link::{link_fault, linkable, linked};
use crate::profile::location::{location_decode_fault, location_of, Location};
use crate::profile::mapping::{mapping_of, Mapping};
use crate::profile::sample::{
    push_signed_all, sample_decode_fault, sample_of, signed_all, Sample,
};
use crate::profile::validate::{profile_valid, validation_fault};
use crate::profile::value_type::{value_type_of, ValueType};
use crate::profile::{views, Profile, ProfileView};
use flate2::read::GzDecoder;
use std::io::Read;
use vstd::prelude::*;

verus! {

/// The comment indices that one field holds: all the varints of a
/// length-delimited field, the one value of another field.
pub open spec fn comment_indices_of(f: BufferView) -> Option<Seq<u64>> {
    if f.ty == WireTypes::WireBytes {
        varints_of(f.data)
    } else {
        Some(seq![f.value])
    }
}

/// A profile after one more field of the top-level message. Fields 1 to
/// 5 add a sample type, a sample, a mapping, a location, a function;
/// field 6 adds a string to the string table, whose first string has to be
/// empty; fields 7, 8, 10, 12 and 14 set an integer; field 9 sets the time,
/// once; field 11 sets the period type; field 13 adds comment indices;
/// other fields are passed over. There is none where the field is
/// malformed, the first string is not empty, or the time is set twice.
pub open spec fn profile_step(p: ProfileView, f: BufferView) -> Option<ProfileView> {
    if f.field == 1 {
        match value_type_of(f.data) {
            Some(v) => Some(ProfileView { sample_type: p.sample_type.push(v), ..p }),
            None => None,
        }
    } else if f.field == 2 {
        match sample_of(f.data) {
            Some(s) => Some(ProfileView { sample: p.sample.push(s), ..p }),
            None => None,
        }
    } else if f.field == 3 {
        match mapping_of(f.data) {
            Some(m) => Some(ProfileView { mapping: p.mapping.push(m), ..p }),
            None => None,
        }
    } else if f.field == 4 {
        match location_of(f.data) {
            Some(l) => Some(ProfileView { location: p.location.push(l), ..p }),
            None => None,
        }
    } else if f.field == 5 {
        match function_of(f.data) {
            Some(x) => Some(ProfileView { function: p.function.push(x), ..p }),
            None => None,
        }
    } else if f.field == 6 {
        match text_of_bytes(f.data) {
            Some(s) => {
                let table = p.string_table.push(s);
                if table[0].len() == 0 {
                    Some(ProfileView { string_table: table, ..p })
                } else {
                    None
                }
            },
            None => None,
        }
    } else if f.field == 7 {
        Some(ProfileView { drop_frames_index: signed(f.value), ..p })
    } else if f.field == 8 {
        Some(ProfileView { keep_frames_index: signed(f.value), ..p })
    } else if f.field == 9 {
        if p.time_nanos != 0 {
            None
        } else {
            Some(ProfileView { time_nanos: signed(f.value), ..p })
        }
    } else if f.field == 10 {
        Some(ProfileView { duration_nanos: signed(f.value), ..p })
    } else if f.field == 11 {
        match value_type_of(f.data) {
            Some(v) => Some(ProfileView { period_type: Some(v), ..p }),
            None => None,
        }
    } else if f.field == 12 {
        Some(ProfileView { period: signed(f.value), ..p })
    } else if f.field == 13 {
        match comment_indices_of(f) {
            Some(values) => Some(
                ProfileView { comment_index: p.comment_index + signed_all(values), ..p },
            ),
            None => None,
        }
    } else if f.field == 14 {
        Some(ProfileView { default_sample_type_index: signed(f.value), ..p })
    } else {
        Some(p)
    }
}

/// A profile after all the fields of a list, one after the other.
pub open spec fn profile_fold(fields: Seq<BufferView>, p: ProfileView) -> Option<ProfileView>
    decreases fields.len(),
{
    if fields.len() == 0 {
        Some(p)
    } else {
        match profile_step(p, fields[0]) {
            Some(next) => profile_fold(fields.drop_first(), next),
            None => None,
        }
    }
}

/// Why a field cannot be taken into a profile, in words.
pub open spec fn profile_step_fault(f: BufferView) -> Seq<char> {
    if f.field == 2 {
        sample_decode_fault(f.data)
    } else if f.field == 4 {
        location_decode_fault(f.data)
    } else if f.field == 6 {
        if text_of_bytes(f.data) is Some {
            "String table[0] should be empty"@
        } else {
            "string is not UTF-8"@
        }
    } else if f.field == 9 {
        "concatenated profiles detected"@
    } else if f.field == 13 {
        "bad varint"@
    } else {
        fields_fault(f.data)
    }
}

/// Why a list of fields makes no profile, in words: the fault of the
/// first field that cannot be taken in.
pub open spec fn profile_fold_fault(fields: Seq<BufferView>, p: ProfileView) -> Seq<char>
    decreases fields.len(),
{
    if fields.len() == 0 {
        Seq::empty()
    } else {
        match profile_step(p, fields[0]) {
            Some(next) => profile_fold_fault(fields.drop_first(), next),
            None => profile_step_fault(fields[0]),
        }
    }
}

/// Why the bytes of a top-level message hold no profile, in words.
pub open spec fn profile_decode_fault(bytes: Seq<u8>, p: ProfileView) -> Seq<char> {
    match fields_of(bytes) {
        Some(fields) => profile_fold_fault(fields, p),
        None => fields_fault(bytes),
    }
}

/// A profile after the fields of a list that come before the first one
/// that cannot be taken in.
pub open spec fn profile_fold_until_fault(fields: Seq<BufferView>, p: ProfileView) -> ProfileView
    decreases fields.len(),
{
    if fields.len() == 0 {
        p
    } else {
        match profile_step(p, fields[0]) {
            Some(next) => profile_fold_until_fault(fields.drop_first(), next),
            None => p,
        }
    }
}

/// The profile that the bytes of a top-level message hold, before linking.
pub open spec fn profile_of(bytes: Seq<u8>) -> Option<ProfileView> {
    match fields_of(bytes) {
        Some(fields) => profile_fold(fields, ProfileView::empty()),
        None => None,
    }
}

/// A field record with another region of bytes.
pub open spec fn with_data(f: BufferView, data: Seq<u8>) -> BufferView {
    BufferView { data, ..f }
}

impl Profile {
    /// Takes in one field of the top-level message: its number, wire type
    /// and integer value stand in `buf`, its region of bytes is `data`. It
    /// fails with `DecodeFieldFailed` where the field is malformed, the
    /// first string of the string table is not empty, or the time is set
    /// a second time; the profile is then left as it was.
    pub fn decode_profile(&mut self, buf: &Buffer, data: &[u8]) -> (r: Result<(), RockError>)
        ensures
            match profile_step(old(self)@, with_data(buf@, data@)) {
                Some(next) => r is Ok && final(self)@ == next,
                None => r matches Err(e) && e.kind_of() == ErrorKind::DecodeFieldFailed
                    && e.reason_text() == profile_step_fault(with_data(buf@, data@)) && final(self)@
                    == old(self)@,
            },
    {
        let field = buf.field;
        if field == 1 {
            let v = ValueType::read(data)?;
            let ghost before = self@.sample_type;
            self.sample_type.push(v);
            assert(self@.sample_type =~= before.push(v@));
        } else if field == 2 {
            let s = Sample::read(data)?;
            let ghost before = self@.sample;
            self.sample.push(s);
            assert(self@.sample =~= before.push(s@));
        } else if field == 3 {
            let m = Mapping::read(data)?;
            let ghost before = self@.mapping;
            self.mapping.push(m);
            assert(self@.mapping =~= before.push(m@));
        } else if field == 4 {
            let l = Location::read(data)?;
            let ghost before = self@.location;
            self.location.push(l);
            assert(self@.location =~= before.push(l@));
        } else if field == 5 {
            let x = Function::read(data)?;
            let ghost before = self@.function;
            self.function.push(x);
            assert(self@.function =~= before.push(x@));
        } else if field == 6 {
            let s = decode_string(data)?;
            let ghost before = self@.string_table;
            let head_is_empty = if self.string_table.len() == 0 {
                s.as_str().is_empty()
            } else {
                assert(before[0] == self.string_table[0]@);
                self.string_table[0].as_str().is_empty()
            };
            if !head_is_empty {
                return Err(malformed("String table[0] should be empty"));
            }
            self.string_table.push(s);
            assert(self@.string_table =~= before.push(s@));
        } else if field == 7 {
            self.drop_frames_index = to_signed(buf.value);
        } else if field == 8 {
            self.keep_frames_index = to_signed(buf.value);
        } else if field == 9 {
            if self.time_nanos != 0 {
                return Err(malformed("concatenated profiles detected"));
            }
            self.time_nanos = to_signed(buf.value);
        } else if field == 10 {
            self.duration_nanos = to_signed(buf.value);
        } else if field == 11 {
            let v = ValueType::read(data)?;
            self.period_type = Some(v);
        } else if field == 12 {
            self.period = to_signed(buf.value);
        } else if field == 13 {
            let values = match buf.ty {
                WireTypes::WireBytes => read_varints(data)?,
                _ => {
                    let mut one: Vec<u64> = Vec::new();
                    one.push(buf.value);
                    assert(one@ =~= seq![buf.value]);
                    one
                },
            };
            push_signed_all(&mut self.comment_index, &values);
        } else if field == 14 {
            self.default_sample_type_index = to_signed(buf.value);
        }
        Ok(())
    }

    /// Takes in one field of the top-level message, as `decode_profile`
    /// does, with the region of bytes that `buf` itself holds.
    pub fn decode_profile_field(&mut self, buf: &Buffer) -> (r: Result<(), RockError>)
        ensures
            match profile_step(old(self)@, buf@) {
                Some(next) => r is Ok && final(self)@ == next,
                None => r matches Err(e) && e.kind_of() == ErrorKind::DecodeFieldFailed
                    && e.reason_text() == profile_step_fault(buf@) && final(self)@
                    == old(self)@,
            },
    {
        assert(with_data(buf@, buf.data@) == buf@);
        self.decode_profile(buf, buf.data.as_slice())
    }
}

/// Why a message cannot be decoded into a profile, in words.
pub open spec fn message_fault(buf: BufferView, bytes: Seq<u8>, p: ProfileView) -> Seq<char> {
    if buf.ty != WireTypes::WireBytes {
        "WireTypes not Equal WireBytes"@
    } else {
        profile_decode_fault(bytes, p)
    }
}

/// Decodes all the fields of the top-level message that `data` holds into
/// `profile`, and uses the bytes up; `buf` is left with the last field.
/// `buf` has to stand for a length-delimited region. On failure `buf` and
/// `data` are left as they were, and `profile` holds the fields that came
/// before the first one that cannot be taken in.
pub fn decode_message(buf: &mut Buffer, data: &mut Vec<u8>, profile: &mut Profile) -> (r: Result<
    (),
    RockError,
>)
    ensures
        r is Ok <==> old(buf).ty == WireTypes::WireBytes && (fields_of(old(data)@) matches Some(
            fields,
        ) && profile_fold(fields, old(profile)@) is Some),
        r is Ok ==> final(profile)@ == profile_fold(fields_of(old(data)@)->0, old(profile)@)->0
            && final(data)@ == Seq::<u8>::empty() && final(buf)@ == scratch_after(
            old(data)@,
            old(buf)@,
        ),
        r matches Err(e) ==> e.kind_of() == ErrorKind::DecodeFieldFailed && final(data)@
            == old(data)@ && final(buf)@ == old(buf)@ && e.reason_text() == message_fault(
            old(buf)@,
            old(data)@,
            old(profile)@,
        ),
        r is Err ==> final(profile)@ == (if old(buf).ty == WireTypes::WireBytes && fields_of(
            old(data)@,
        ) is Some {
            profile_fold_until_fault(fields_of(old(data)@)->0, old(profile)@)
        } else {
            old(profile)@
        }),
{
    if buf.ty != WireTypes::WireBytes {
        return Err(malformed("WireTypes not Equal WireBytes"));
    }
    let fields = read_fields(data.as_slice())?;
    let ghost all = views(fields@);
    let mut i: usize = 0;
    assert(all.skip(0) =~= all);
    while i < fields.len()
        invariant
            i <= fields.len(),
            all == views(fields@),
            fields_of(old(data)@) == Some(all),
            data@ == old(data)@,
            buf@ == old(buf)@,
            buf.ty == WireTypes::WireBytes,
            profile_fold(all, old(profile)@) == profile_fold(all.skip(i as int), profile@),
            profile_fold_fault(all, old(profile)@) == profile_fold_fault(
                all.skip(i as int),
                profile@,
            ),
            profile_fold_until_fault(all, old(profile)@) == profile_fold_until_fault(
                all.skip(i as int),
                profile@,
            ),
        decreases fields.len() - i,
    {
        assert(all.skip(i as int)[0] == fields[i as int]@);
        assert(all.skip(i as int).drop_first() =~= all.skip(i + 1));
        profile.decode_profile_field(&fields[i])?;
        i += 1;
    }
    finish_message(buf, data, fields);
    Ok(())
}

/// Whether bytes begin with the two magic bytes of gzip.
pub open spec fn is_gzip(bytes: Seq<u8>) -> bool {
    bytes.len() >= 2 && bytes[0] == 0x1f && bytes[1] == 0x8b
}

/// What inflating a gzip member gives: the bytes that it holds, or the
/// message of the failure.
pub uninterp spec fn gzip_inflated(data: Seq<u8>) -> Result<Seq<u8>, Seq<char>>;

/// `flate2::read::GzDecoder` over the bytes, read to its end with
/// `std::io::Read::read_to_end`: the result is what the name
/// `gzip_inflated` stands for, the bytes of the first gzip member or the
/// text of the I/O error.
#[verifier::external_body]
fn gz_read_to_end(data: &[u8]) -> (r: Result<Vec<u8>, String>)
    ensures
        match r {
            Ok(out) => gzip_inflated(data@) == Ok::<Seq<u8>, Seq<char>>(out@),
            Err(message) => gzip_inflated(data@) == Err::<Seq<u8>, Seq<char>>(message@),
        },
{
    let mut out = Vec::new();
    match GzDecoder::new(data).read_to_end(&mut out) {
        Ok(_) => Ok(out),
        Err(e) => Err(e.to_string()),
    }
}

/// Inflates a gzip member. It fails with `ProfileUncompressFailed`, which
/// carries the message of the I/O error.
pub fn uncompress_gzip(data: &[u8]) -> (r: Result<Vec<u8>, RockError>)
    ensures
        match r {
            Ok(out) => gzip_inflated(data@) == Ok::<Seq<u8>, Seq<char>>(out@),
            Err(e) => e.kind_of() == ErrorKind::ProfileUncompressFailed && gzip_inflated(data@)
                == Err::<Seq<u8>, Seq<char>>(e.reason_text()),
        },
{
    match gz_read_to_end(data) {
        Ok(out) => Ok(out),
        Err(message) => Err(RockError::ProfileUncompressFailed { reason: message }),
    }
}

/// What bytes without envelope decode to: the linked profile, where the
/// wire stream is well-formed, the profile can be linked, and the linked
/// profile is valid; otherwise the kind of the failure.
pub open spec fn raw_decoded(raw: Seq<u8>) -> Result<ProfileView, ErrorKind> {
    match profile_of(raw) {
        None => Err(ErrorKind::DecodeFieldFailed),
        Some(p) => if linkable(p) && profile_valid(linked(p)) {
            Ok(linked(p))
        } else {
            Err(ErrorKind::ValidationFailed)
        },
    }
}

/// What bytes decode to: bytes that begin with the magic bytes of gzip
/// are inflated first.
pub open spec fn decoded_profile(bytes: Seq<u8>) -> Result<ProfileView, ErrorKind> {
    if is_gzip(bytes) {
        match gzip_inflated(bytes) {
            Ok(raw) => raw_decoded(raw),
            Err(_) => Err(ErrorKind::ProfileUncompressFailed),
        }
    } else {
        raw_decoded(bytes)
    }
}

/// Why bytes without envelope decode to no profile, in words.
pub open spec fn raw_fault(raw: Seq<u8>) -> Seq<char> {
    match profile_of(raw) {
        None => profile_decode_fault(raw, ProfileView::empty()),
        Some(p) => match link_fault(p) {
            Some(reason) => reason,
            None => match validation_fault(linked(p)) {
                Some(reason) => reason,
                None => Seq::empty(),
            },
        },
    }
}

/// Why bytes decode to no profile, in words. For bytes that cannot be
/// inflated it is the message of the I/O error.
pub open spec fn decode_fault(bytes: Seq<u8>) -> Seq<char> {
    if is_gzip(bytes) {
        match gzip_inflated(bytes) {
            Ok(raw) => raw_fault(raw),
            Err(message) => message,
        }
    } else {
        raw_fault(bytes)
    }
}

/// Decodes, links and validates bytes without envelope, whatever they
/// begin with. The bytes are used up where the wire stream is
/// well-formed.
pub fn decode_raw(data: &mut Vec<u8>) -> (r: Result<Profile, RockError>)
    ensures
        match raw_decoded(old(data)@) {
            Ok(p) => r matches Ok(x) && x@ == p,
            Err(kind) => r matches Err(e) && e.kind_of() == kind && e.reason_text() == raw_fault(
                old(data)@,
            ),
        },
        final(data)@ == (if profile_of(old(data)@) is Some {
            Seq::<u8>::empty()
        } else {
            old(data)@
        }),
{
    let mut profile = Profile::default();
    let mut buf = Buffer::new();
    decode_message(&mut buf, data, &mut profile)?;
    profile.post_decode()?;
    profile.validate()?;
    Ok(profile)
}

/// The entry point of decoding.
pub trait ProfileDecoder {
    /// Decodes a profile from `data`: inflates it where it begins with the
    /// magic bytes of gzip, decodes the wire stream, links the profile and
    /// validates it. Bytes without envelope are used up where their wire
    /// stream is well-formed; otherwise `data` is left as it was.
    fn decode(data: &mut Vec<u8>) -> (r: Result<Profile, RockError>)
        ensures
            match decoded_profile(old(data)@) {
                Ok(p) => r matches Ok(x) && x@ == p && profile_valid(x@),
                Err(kind) => r matches Err(e) && e.kind_of() == kind && e.reason_text()
                    == decode_fault(old(data)@),
            },
            final(data)@ == (if !is_gzip(old(data)@) && profile_of(old(data)@) is Some {
                Seq::<u8>::empty()
            } else {
                old(data)@
            }),
    ;

    /// Decodes a profile from bytes that it takes over, as `decode` does.
    fn unmarshal(data: Vec<u8>) -> (r: Result<Profile, RockError>)
        ensures
            match decoded_profile(data@) {
                Ok(p) => r matches Ok(x) && x@ == p && profile_valid(x@),
                Err(kind) => r matches Err(e) && e.kind_of() == kind && e.reason_text()
                    == decode_fault(data@),
            },
    ;
}

impl ProfileDecoder for Buffer {
    fn decode(data: &mut Vec<u8>) -> (r: Result<Profile, RockError>) {
        if data.len() >= 2 && data[0] == 0x1f && data[1] == 0x8b {
            let mut raw = uncompress_gzip(data.as_slice())?;
            decode_raw(&mut raw)
        } else {
            decode_raw(data)
        }
    }

    fn unmarshal(data: Vec<u8>) -> (r: Result<Profile, RockError>) {
        let mut data = data;
        Buffer::decode(&mut data)
    }
}

impl Buffer {
    /// Decodes all the fields of a top-level message into `profile`; see
    /// the function `decode_message` of this module.
    pub fn decode_message(buf: &mut Buffer, data: &mut Vec<u8>, profile: &mut Profile) -> (r:
        Result<(), RockError>)
        ensures
            r is Ok <==> old(buf).ty == WireTypes::WireBytes && (fields_of(old(data)@) matches Some(
                fields,
            ) && profile_fold(fields, old(profile)@) is Some),
            r is Ok ==> final(profile)@ == profile_fold(
                fields_of(old(data)@)->0,
                old(profile)@,
            )->0 && final(data)@ == Seq::<u8>::empty() && final(buf)@ == scratch_after(
                old(data)@,
                old(buf)@,
            ),
            r matches Err(e) ==> e.kind_of() == ErrorKind::DecodeFieldFailed && final(data)@
                == old(data)@ && final(buf)@ == old(buf)@ && e.reason_text() == message_fault(
                old(buf)@,
                old(data)@,
                old(profile)@,
            ),
            r is Err ==> final(profile)@ == (if old(buf).ty == WireTypes::WireBytes
                && fields_of(old(data)@) is Some {
                profile_fold_until_fault(fields_of(old(data)@)->0, old(profile)@)
            } else {
                old(profile)@
            }),
    {
        decode_message(buf, data, profile)
    }

    /// Decodes the field at the start of `data` into `buf`; see the
    /// function `decode_field` of the wire reader.
    pub fn decode_field(buf: &mut Buffer, data: &mut Vec<u8>) -> (r: Result<(), RockError>)
        ensures
            match crate::profile::buffer::field_at(old(data)@) {
                Some((f, n)) => r is Ok && final(buf)@ == f && final(data)@ == old(data)@.skip(
                    n as int,
                ),
                None => r matches Err(e) && e.kind_of() == ErrorKind::DecodeFieldFailed
                    && e.reason_text() == crate::profile::buffer::field_fault(old(data)@)
                    && final(buf)@ == old(buf)@ && final(data)@ == old(data)@,
            },
    {
        crate::profile::buffer::decode_field(buf, data)
    }

    /// Decodes the varint at the start of `data`; see the function
    /// `decode_varint` of the wire reader.
    pub fn decode_varint(data: &mut Vec<u8>) -> (r: Result<u64, RockError>)
        ensures
            match crate::profile::buffer::varint_of(old(data)@) {
                Some((v, n)) => r == Ok::<u64, RockError>(v) && final(data)@ == old(data)@.skip(
                    n as int,
                ),
                None => r matches Err(e) && e.kind_of() == ErrorKind::DecodeFieldFailed
                    && e.reason_text() == "bad varint"@ && final(data)@ == old(data)@,
            },
    {
        crate::profile::buffer::decode_varint(data)
    }
}

} // verus!
