//! The wire reader: varints, fixed-width integers, length-delimited
//! regions, and the fields that are made of them.

use crate::errors::{ErrorKind, RockError};
use vstd::prelude::*;
use vstd::slice::{slice_subrange, slice_to_vec};
use vstd::utf8::{decode_utf8, encode_utf8, encode_utf8_decode_utf8, valid_utf8};

verus! {

/// How a value is encoded on the wire.
#[derive(Clone, Copy, Debug, PartialEq, Eq, Structural)]
pub enum WireTypes {
    /// Code 0: a varint.
    WireVarint,
    /// Code 1: eight bytes, little-endian.
    WireFixed64,
    /// Code 2: a varint length, then that many bytes.
    WireBytes,
    /// Code 5: four bytes, little-endian.
    WireFixed32,
}

impl WireTypes {
    /// The wire type of a code.
    pub open spec fn of_code(code: u64) -> Option<WireTypes> {
        if code == 0 {
            Some(WireTypes::WireVarint)
        } else if code == 1 {
            Some(WireTypes::WireFixed64)
        } else if code == 2 {
            Some(WireTypes::WireBytes)
        } else if code == 5 {
            Some(WireTypes::WireFixed32)
        } else {
            None
        }
    }

    /// The wire type of a code; none for a code that stands for no wire
    /// type.
    pub fn from_code(code: u64) -> (r: Option<WireTypes>)
        ensures
            r == WireTypes::of_code(code),
    {
        if code == 0 {
            Some(WireTypes::WireVarint)
        } else if code == 1 {
            Some(WireTypes::WireFixed64)
        } else if code == 2 {
            Some(WireTypes::WireBytes)
        } else if code == 5 {
            Some(WireTypes::WireFixed32)
        } else {
            None
        }
    }

    /// The code of a wire type.
    pub fn code(self) -> (c: u64)
        ensures
            WireTypes::of_code(c) == Some(self),
    {
        match self {
            WireTypes::WireVarint => 0,
            WireTypes::WireFixed64 => 1,
            WireTypes::WireBytes => 2,
            WireTypes::WireFixed32 => 5,
        }
    }
}

/// What a `Buffer` is, as mathematics.
pub struct BufferView {
    pub field: u64,
    pub ty: WireTypes,
    pub value: u64,
    pub data: Seq<u8>,
}

/// One decoded field: its number, its wire type, and its value, which is
/// an integer or, for a length-delimited field, a region of bytes.
#[derive(Debug, PartialEq, Eq)]
pub struct Buffer {
    /// The field number.
    pub field: u64,
    /// The wire type.
    pub ty: WireTypes,
    /// The value of a varint or fixed-width field; 0 otherwise.
    pub value: u64,
    /// The bytes of a length-delimited field; empty otherwise.
    pub data: Vec<u8>,
}

impl View for Buffer {
    type V = BufferView;

    open spec fn view(&self) -> BufferView {
        BufferView { field: self.field, ty: self.ty, value: self.value, data: self.data@ }
    }
}

impl Clone for Buffer {
    fn clone(&self) -> (r: Buffer)
        ensures
            r@ == self@,
    {
        let data = self.data.clone();
        assert(data@ =~= self.data@);
        Buffer { field: self.field, ty: self.ty, value: self.value, data }
    }
}

impl Buffer {
    /// The record that stands for a whole message before any of its
    /// fields is decoded: length-delimited, and empty.
    pub fn new() -> (r: Buffer)
        ensures
            r@ == (BufferView {
                field: 0,
                ty: WireTypes::WireBytes,
                value: 0,
                data: Seq::empty(),
            }),
    {
        Buffer { field: 0, ty: WireTypes::WireBytes, value: 0, data: Vec::new() }
    }
}

/// The low seven bits of a byte.
pub open spec fn low7(b: u8) -> u64 {
    (b & 0x7f) as u64
}

/// Whether the continuation bit of a byte is set.
pub open spec fn continues(b: u8) -> bool {
    b & 0x80 != 0
}

/// The number of bytes of the varint at the start of `bytes`, counted
/// from byte `i` on: the place after the first byte whose continuation
/// bit is clear. There is none where the bytes end first, or ten bytes
/// pass.
pub open spec fn varint_end(bytes: Seq<u8>, i: nat) -> Option<nat>
    decreases 10 - i,
{
    if i >= 10 || i >= bytes.len() {
        None
    } else if !continues(bytes[i as int]) {
        Some(i + 1)
    } else {
        varint_end(bytes, i + 1)
    }
}

/// The value of the first `n` bytes of a varint: the low seven bits of
/// each byte, shifted to their place, the first byte lowest. Bits beyond
/// the 64th are lost.
pub open spec fn varint_acc(bytes: Seq<u8>, n: nat) -> u64
    decreases n,
{
    if n == 0 {
        0
    } else {
        varint_acc(bytes, (n - 1) as nat) | (low7(bytes[n - 1]) << ((7 * (n - 1)) as u64))
    }
}

/// The varint at the start of `bytes`: its value and its length.
pub open spec fn varint_of(bytes: Seq<u8>) -> Option<(u64, nat)> {
    match varint_end(bytes, 0) {
        Some(n) => Some((varint_acc(bytes, n), n)),
        None => None,
    }
}

/// The little-endian value of the first eight bytes of `p`.
pub open spec fn fixed64_of(p: Seq<u8>) -> u64 {
    (p[0] as u64) | ((p[1] as u64) << 8) | ((p[2] as u64) << 16) | ((p[3] as u64) << 24) | ((
    p[4] as u64) << 32) | ((p[5] as u64) << 40) | ((p[6] as u64) << 48) | ((p[7] as u64) << 56)
}

/// The little-endian value of the first four bytes of `p`.
pub open spec fn fixed32_of(p: Seq<u8>) -> u32 {
    (p[0] as u32) | ((p[1] as u32) << 8) | ((p[2] as u32) << 16) | ((p[3] as u32) << 24)
}

/// The field at the start of `bytes`, and the number of bytes that it
/// takes. The key varint holds the wire type in its low three bits and
/// the field number above them.
pub open spec fn field_at(bytes: Seq<u8>) -> Option<(BufferView, nat)> {
    match varint_of(bytes) {
        None => None,
        Some((key, n)) => match WireTypes::of_code(key & 7) {
            None => None,
            Some(ty) => {
                let rest = bytes.skip(n as int);
                let field = key >> 3;
                match ty {
                    WireTypes::WireVarint => match varint_of(rest) {
                        None => None,
                        Some((value, m)) => Some(
                            (BufferView { field, ty, value, data: Seq::empty() }, n + m),
                        ),
                    },
                    WireTypes::WireFixed64 => if rest.len() < 8 {
                        None
                    } else {
                        Some(
                            (
                                BufferView {
                                    field,
                                    ty,
                                    value: fixed64_of(rest),
                                    data: Seq::empty(),
                                },
                                n + 8,
                            ),
                        )
                    },
                    WireTypes::WireBytes => match varint_of(rest) {
                        None => None,
                        Some((len, m)) => if len > rest.len() - m {
                            None
                        } else {
                            Some(
                                (
                                    BufferView {
                                        field,
                                        ty,
                                        value: 0,
                                        data: rest.subrange(m as int, m + len),
                                    },
                                    n + m + len as nat,
                                ),
                            )
                        },
                    },
                    WireTypes::WireFixed32 => if rest.len() < 4 {
                        None
                    } else {
                        Some(
                            (
                                BufferView {
                                    field,
                                    ty,
                                    value: fixed32_of(rest) as u64,
                                    data: Seq::empty(),
                                },
                                n + 4,
                            ),
                        )
                    },
                }
            },
        },
    }
}

/// Why there is no field at the start of `bytes`, in words.
pub open spec fn field_fault(bytes: Seq<u8>) -> Seq<char> {
    match varint_of(bytes) {
        None => "bad varint"@,
        Some((key, n)) => match WireTypes::of_code(key & 7) {
            None => "unknown wire type"@,
            Some(ty) => match ty {
                WireTypes::WireVarint => "bad varint"@,
                WireTypes::WireFixed64 => "data len less than 8 bytes"@,
                WireTypes::WireBytes => match varint_of(bytes.skip(n as int)) {
                    None => "bad varint"@,
                    Some(_) => "too much data"@,
                },
                WireTypes::WireFixed32 => "data len less than 4 bytes"@,
            },
        },
    }
}

/// All the fields of a message, in the order of the wire; none where some
/// field is malformed.
pub open spec fn fields_of(bytes: Seq<u8>) -> Option<Seq<BufferView>>
    decreases bytes.len(),
{
    if bytes.len() == 0 {
        Some(Seq::empty())
    } else {
        match field_at(bytes) {
            Some((f, n)) if 0 < n <= bytes.len() => match fields_of(bytes.skip(n as int)) {
                Some(rest) => Some(seq![f] + rest),
                None => None,
            },
            _ => None,
        }
    }
}

/// Why the bytes of a message are malformed, in words: the fault of its
/// first malformed field.
pub open spec fn fields_fault(bytes: Seq<u8>) -> Seq<char>
    decreases bytes.len(),
{
    if bytes.len() == 0 {
        Seq::empty()
    } else {
        match field_at(bytes) {
            Some((f, n)) if 0 < n <= bytes.len() => fields_fault(bytes.skip(n as int)),
            _ => field_fault(bytes),
        }
    }
}

/// All the varints of a packed region, in the order of the wire.
pub open spec fn varints_of(bytes: Seq<u8>) -> Option<Seq<u64>>
    decreases bytes.len(),
{
    if bytes.len() == 0 {
        Some(Seq::empty())
    } else {
        match varint_of(bytes) {
            Some((v, n)) if 0 < n <= bytes.len() => match varints_of(bytes.skip(n as int)) {
                Some(rest) => Some(seq![v] + rest),
                None => None,
            },
            _ => None,
        }
    }
}

/// A varint ends within ten bytes and within the bytes that are there.
pub proof fn lemma_varint_end_bounds(bytes: Seq<u8>, i: nat)
    ensures
        varint_end(bytes, i) matches Some(n) ==> i < n <= 10 && n <= bytes.len(),
    decreases 10 - i,
{
    if i < 10 && i < bytes.len() && continues(bytes[i as int]) {
        lemma_varint_end_bounds(bytes, i + 1);
    }
}

/// A field takes at least one byte and no more than there are.
pub proof fn lemma_field_bounds(bytes: Seq<u8>)
    ensures
        field_at(bytes) matches Some((f, n)) ==> 0 < n <= bytes.len(),
{
    lemma_varint_end_bounds(bytes, 0);
    if let Some((key, n)) = varint_of(bytes) {
        lemma_varint_end_bounds(bytes.skip(n as int), 0);
    }
}

/// The error of a malformed wire stream.
pub fn malformed(reason: &str) -> (e: RockError)
    ensures
        e.kind_of() == ErrorKind::DecodeFieldFailed,
        e.reason_text() == reason@,
{
    RockError::new(ErrorKind::DecodeFieldFailed, reason)
}

/// Reads the varint that starts at `pos`; gives its value and the
/// place after it.
pub fn read_varint(data: &[u8], pos: usize) -> (r: Result<(u64, usize), RockError>)
    requires
        pos <= data@.len(),
    ensures
        match r {
            Ok((v, next)) => pos < next <= data@.len() && varint_of(data@.skip(pos as int))
                == Some((v, (next - pos) as nat)),
            Err(e) => varint_of(data@.skip(pos as int)).is_none() && e.kind_of()
                == ErrorKind::DecodeFieldFailed && e.reason_text() == "bad varint"@,
        },
{
    let ghost bytes = data@.skip(pos as int);
    let mut u: u64 = 0;
    let mut i: usize = 0;
    loop
        invariant
            pos <= data@.len(),
            bytes == data@.skip(pos as int),
            i <= 10,
            i <= data@.len() - pos,
            u == varint_acc(bytes, i as nat),
            varint_end(bytes, 0) == varint_end(bytes, i as nat),
        decreases 10 - i,
    {
        if i >= 10 || i >= data.len() - pos {
            return Err(malformed("bad varint"));
        }
        let b = data[pos + i];
        assert(b == bytes[i as int]);
        let shift: u64 = 7 * (i as u64);
        u = u | (((b & 0x7f) as u64) << shift);
        assert(u == varint_acc(bytes, (i + 1) as nat));
        if b & 0x80 == 0 {
            return Ok((u, pos + i + 1));
        }
        i += 1;
    }
}

/// Drops the first `n` bytes.
fn advance(data: &mut Vec<u8>, n: usize)
    requires
        n <= old(data)@.len(),
    ensures
        final(data)@ == old(data)@.skip(n as int),
{
    let rest = data.split_off(n);
    *data = rest;
}

/// Decodes the varint at the start of `data` and drops its bytes. It
/// fails where the bytes end, or ten bytes pass, before a byte without
/// continuation bit; `data` is then left as it was.
pub fn decode_varint(data: &mut Vec<u8>) -> (r: Result<u64, RockError>)
    ensures
        match varint_of(old(data)@) {
            Some((v, n)) => r == Ok::<u64, RockError>(v) && final(data)@ == old(data)@.skip(
                n as int,
            ),
            None => r matches Err(e) && e.kind_of() == ErrorKind::DecodeFieldFailed
                && e.reason_text() == "bad varint"@ && final(data)@ == old(data)@,
        },
{
    assert(data@.skip(0) =~= data@);
    match read_varint(data.as_slice(), 0) {
        Ok((v, next)) => {
            advance(data, next);
            Ok(v)
        },
        Err(e) => Err(e),
    }
}

/// The little-endian value of the first eight bytes of `p`.
pub fn decode_fixed64(p: &[u8]) -> (v: u64)
    requires
        p@.len() >= 8,
    ensures
        v == fixed64_of(p@),
{
    (p[0] as u64) | ((p[1] as u64) << 8) | ((p[2] as u64) << 16) | ((p[3] as u64) << 24) | ((
    p[4] as u64) << 32) | ((p[5] as u64) << 40) | ((p[6] as u64) << 48) | ((p[7] as u64) << 56)
}

/// The little-endian value of the first four bytes of `p`.
pub fn decode_fixed32(p: &[u8]) -> (v: u32)
    requires
        p@.len() >= 4,
    ensures
        v == fixed32_of(p@),
{
    (p[0] as u32) | ((p[1] as u32) << 8) | ((p[2] as u32) << 16) | ((p[3] as u32) << 24)
}

/// Reads the field that starts at `pos`; gives the field and the place
/// after it.
pub fn read_field(data: &[u8], pos: usize) -> (r: Result<(Buffer, usize), RockError>)
    requires
        pos <= data@.len(),
    ensures
        match r {
            Ok((buf, next)) => pos < next <= data@.len() && field_at(data@.skip(pos as int))
                == Some((buf@, (next - pos) as nat)),
            Err(e) => field_at(data@.skip(pos as int)).is_none() && e.kind_of()
                == ErrorKind::DecodeFieldFailed && e.reason_text() == field_fault(
                data@.skip(pos as int),
            ),
        },
{
    let ghost bytes = data@.skip(pos as int);
    let (key, at) = read_varint(data, pos)?;
    let ghost n = (at - pos) as nat;
    let ghost rest = bytes.skip(n as int);
    assert(rest =~= data@.skip(at as int));
    let field = key >> 3;
    let ty = match WireTypes::from_code(key & 7) {
        Some(ty) => ty,
        None => {
            return Err(malformed("unknown wire type"));
        },
    };
    match ty {
        WireTypes::WireVarint => {
            let (value, next) = read_varint(data, at)?;
            Ok((Buffer { field, ty, value, data: Vec::new() }, next))
        },
        WireTypes::WireFixed64 => {
            if data.len() - at < 8 {
                return Err(malformed("data len less than 8 bytes"));
            }
            let region = slice_subrange(data, at, at + 8);
            let value = decode_fixed64(region);
            assert(fixed64_of(region@) == fixed64_of(rest));
            Ok((Buffer { field, ty, value, data: Vec::new() }, at + 8))
        },
        WireTypes::WireBytes => {
            let (len, start) = read_varint(data, at)?;
            if len > (data.len() - start) as u64 {
                return Err(malformed("too much data"));
            }
            let end = start + len as usize;
            let payload = slice_to_vec(slice_subrange(data, start, end));
            assert(payload@ =~= rest.subrange(start - at, start - at + len));
            Ok((Buffer { field, ty, value: 0, data: payload }, end))
        },
        WireTypes::WireFixed32 => {
            if data.len() - at < 4 {
                return Err(malformed("data len less than 4 bytes"));
            }
            let region = slice_subrange(data, at, at + 4);
            let value = decode_fixed32(region) as u64;
            assert(fixed32_of(region@) == fixed32_of(rest));
            Ok((Buffer { field, ty, value, data: Vec::new() }, at + 4))
        },
    }
}

/// Decodes the field at the start of `data` into `buf` and drops its
/// bytes. It fails where the key or the value is malformed: a bad
/// varint, an unknown wire type, a fixed-width value or a region longer
/// than what is left. `buf` and `data` are then left as they were.
pub fn decode_field(buf: &mut Buffer, data: &mut Vec<u8>) -> (r: Result<(), RockError>)
    ensures
        match field_at(old(data)@) {
            Some((f, n)) => r is Ok && final(buf)@ == f && final(data)@ == old(data)@.skip(
                n as int,
            ),
            None => r matches Err(e) && e.kind_of() == ErrorKind::DecodeFieldFailed
                && e.reason_text() == field_fault(old(data)@) && final(buf)@ == old(buf)@
                && final(data)@ == old(data)@,
        },
{
    assert(data@.skip(0) =~= data@);
    match read_field(data.as_slice(), 0) {
        Ok((f, next)) => {
            *buf = f;
            advance(data, next);
            Ok(())
        },
        Err(e) => Err(e),
    }
}

/// Reads all the fields of a message.
pub fn read_fields(data: &[u8]) -> (r: Result<Vec<Buffer>, RockError>)
    ensures
        match r {
            Ok(fields) => fields_of(data@) == Some(crate::profile::views(fields@)),
            Err(e) => fields_of(data@).is_none() && e.kind_of() == ErrorKind::DecodeFieldFailed
                && e.reason_text() == fields_fault(data@),
        },
{
    let mut out: Vec<Buffer> = Vec::new();
    let mut pos: usize = 0;
    assert(data@.skip(0) =~= data@);
    while pos < data.len()
        invariant
            pos <= data@.len(),
            fields_fault(data@) == fields_fault(data@.skip(pos as int)),
            match fields_of(data@.skip(pos as int)) {
                Some(rest) => fields_of(data@) == Some(crate::profile::views(out@) + rest),
                None => fields_of(data@).is_none(),
            },
        decreases data@.len() - pos,
    {
        let ghost here = data@.skip(pos as int);
        proof {
            lemma_field_bounds(here);
        }
        let (f, next) = read_field(data, pos)?;
        proof {
            assert(here.skip(next - pos) =~= data@.skip(next as int));
            let before = crate::profile::views(out@);
            let after = crate::profile::views(out@.push(f));
            assert(after =~= before + seq![f@]);
            if let Some(rest) = fields_of(data@.skip(next as int)) {
                assert(before + (seq![f@] + rest) =~= after + rest);
            }
        }
        out.push(f);
        pos = next;
    }
    proof {
        assert(data@.skip(pos as int) =~= Seq::<u8>::empty());
        assert(crate::profile::views(out@) + Seq::<BufferView>::empty() =~= crate::profile::views(
            out@,
        ));
    }
    Ok(out)
}

/// Reads all the varints of a packed region.
pub fn read_varints(data: &[u8]) -> (r: Result<Vec<u64>, RockError>)
    ensures
        match r {
            Ok(values) => varints_of(data@) == Some(values@),
            Err(e) => varints_of(data@).is_none() && e.kind_of()
                == ErrorKind::DecodeFieldFailed && e.reason_text() == "bad varint"@,
        },
{
    let mut out: Vec<u64> = Vec::new();
    let mut pos: usize = 0;
    assert(data@.skip(0) =~= data@);
    while pos < data.len()
        invariant
            pos <= data@.len(),
            match varints_of(data@.skip(pos as int)) {
                Some(rest) => varints_of(data@) == Some(out@ + rest),
                None => varints_of(data@).is_none(),
            },
        decreases data@.len() - pos,
    {
        let ghost here = data@.skip(pos as int);
        let (v, next) = read_varint(data, pos)?;
        proof {
            assert(here.skip(next - pos) =~= data@.skip(next as int));
            if let Some(rest) = varints_of(data@.skip(next as int)) {
                assert(out@ + (seq![v] + rest) =~= out@.push(v) + rest);
            }
        }
        out.push(v);
        pos = next;
    }
    proof {
        assert(data@.skip(pos as int) =~= Seq::<u8>::empty());
        assert(out@ + Seq::<u64>::empty() =~= out@);
    }
    Ok(out)
}

/// An unsigned wire value read as a signed one, in two's complement.
pub open spec fn signed(v: u64) -> i64 {
    v as i64
}

/// Two's complement: the values below 2^63 stay, the others stand for
/// the negative numbers.
pub proof fn lemma_signed(v: u64)
    ensures
        v < 0x8000_0000_0000_0000 ==> signed(v) == v,
        v >= 0x8000_0000_0000_0000 ==> signed(v) == v - 0x1_0000_0000_0000_0000,
{
    assert(v < 0x8000_0000_0000_0000 ==> (v as i64) == v) by (bit_vector);
    assert(v >= 0x8000_0000_0000_0000 ==> (v as i64) == v - 0x1_0000_0000_0000_0000)
        by (bit_vector);
}

/// An unsigned wire value read as a signed one: the values below 2^63
/// stay, the others stand for the negative numbers.
pub fn to_signed(v: u64) -> (r: i64)
    ensures
        r == signed(v),
        v < 0x8000_0000_0000_0000 ==> r == v,
        v >= 0x8000_0000_0000_0000 ==> r == v - 0x1_0000_0000_0000_0000,
{
    proof {
        lemma_signed(v);
    }
    v as i64
}

/// The record that a decoder leaves in its scratch buffer: the last field
/// of the message, or what was there where the message has no field.
pub open spec fn scratch_after(bytes: Seq<u8>, before: BufferView) -> BufferView {
    match fields_of(bytes) {
        Some(fields) if fields.len() > 0 => fields.last(),
        _ => before,
    }
}

/// Ends the decoding of a message: the scratch buffer takes the last
/// field, and the bytes are used up.
pub fn finish_message(buf: &mut Buffer, data: &mut Vec<u8>, fields: Vec<Buffer>)
    requires
        fields_of(old(data)@) == Some(crate::profile::views(fields@)),
    ensures
        final(buf)@ == scratch_after(old(data)@, old(buf)@),
        final(data)@ == Seq::<u8>::empty(),
{
    let mut fields = fields;
    let ghost all = crate::profile::views(fields@);
    match fields.pop() {
        Some(last) => {
            assert(all.last() == last@);
            *buf = last;
        },
        None => {},
    }
    data.clear();
}

/// The text that bytes encode in UTF-8; none where they are no UTF-8.
pub open spec fn text_of_bytes(bytes: Seq<u8>) -> Option<Seq<char>> {
    if valid_utf8(bytes) {
        Some(decode_utf8(bytes))
    } else {
        None
    }
}

/// `std::str::from_utf8`, with the text copied into a `String`: there is
/// a text exactly if the bytes are well-formed UTF-8, and the bytes are
/// then the encoding of that text.
#[verifier::external_body]
fn utf8_text(bytes: &[u8]) -> (r: Option<String>)
    ensures
        r is Some <==> valid_utf8(bytes@),
        r matches Some(s) ==> encode_utf8(s@) == bytes@,
{
    match std::str::from_utf8(bytes) {
        Ok(s) => Some(s.to_string()),
        Err(_) => None,
    }
}

/// The text that the bytes `v` encode in UTF-8. It fails on bytes that
/// are no UTF-8.
pub fn decode_string(v: &[u8]) -> (r: Result<String, RockError>)
    ensures
        match r {
            Ok(s) => text_of_bytes(v@) == Some(s@),
            Err(e) => text_of_bytes(v@).is_none() && e.kind_of() == ErrorKind::DecodeFieldFailed
                && e.reason_text() == "string is not UTF-8"@,
        },
{
    match utf8_text(v) {
        Some(s) => {
            proof {
                encode_utf8_decode_utf8(s@);
            }
            Ok(s)
        },
        None => Err(malformed("string is not UTF-8")),
    }
}

} // verus!
