use flate2::write::GzEncoder;
use flate2::Compression;
use rock::errors::ErrorKind;
use rock::graph::builder::{Graph, Options};
use rock::profile::buffer::Buffer;
use rock::profile::decode::{decode_message, decode_raw, uncompress_gzip, ProfileDecoder};
use rock::profile::Profile;
use std::io::Write;

fn varint(mut v: u64, out: &mut Vec<u8>) {
    loop {
        let b = (v & 0x7f) as u8;
        v >>= 7;
        if v == 0 {
            out.push(b);
            return;
        }
        out.push(b | 0x80);
    }
}

fn int_field(field: u64, v: u64, out: &mut Vec<u8>) {
    varint(field << 3, out);
    varint(v, out);
}

fn bytes_field(field: u64, payload: &[u8], out: &mut Vec<u8>) {
    varint((field << 3) | 2, out);
    varint(payload.len() as u64, out);
    out.extend_from_slice(payload);
}

fn packed(values: &[u64]) -> Vec<u8> {
    let mut out = vec![];
    for v in values {
        varint(*v, &mut out);
    }
    out
}

fn value_type(ty: u64, unit: u64) -> Vec<u8> {
    let mut out = vec![];
    int_field(1, ty, &mut out);
    int_field(2, unit, &mut out);
    out
}

fn function(id: u64, name: u64, system_name: u64, filename: u64, start_line: u64) -> Vec<u8> {
    let mut out = vec![];
    int_field(1, id, &mut out);
    int_field(2, name, &mut out);
    int_field(3, system_name, &mut out);
    int_field(4, filename, &mut out);
    int_field(5, start_line, &mut out);
    out
}

fn line(function_id: u64, line: u64) -> Vec<u8> {
    let mut out = vec![];
    int_field(1, function_id, &mut out);
    int_field(2, line, &mut out);
    out
}

fn location(id: u64, mapping: u64, address: u64, lines: &[Vec<u8>]) -> Vec<u8> {
    let mut out = vec![];
    int_field(1, id, &mut out);
    if mapping != 0 {
        int_field(2, mapping, &mut out);
    }
    int_field(3, address, &mut out);
    for l in lines {
        bytes_field(4, l, &mut out);
    }
    out
}

fn mapping(id: u64) -> Vec<u8> {
    let mut out = vec![];
    int_field(1, id, &mut out);
    int_field(2, 0x1000, &mut out);
    int_field(3, 0x2000, &mut out);
    int_field(4, 0, &mut out);
    int_field(5, 7, &mut out);
    int_field(6, 8, &mut out);
    int_field(7, 1, &mut out);
    out
}

const STRINGS: [&str; 15] = [
    "",
    "cpu",
    "nanoseconds",
    "main",
    "main.go",
    "foo",
    "foo.go",
    "bin",
    "build1",
    "samples",
    "count",
    "key1",
    "val1",
    "bytes",
    "comment 1",
];

/// A small profile with three samples, three locations, two functions and
/// one mapping.
fn encoded_profile() -> Vec<u8> {
    let mut out = vec![];
    bytes_field(1, &value_type(9, 10), &mut out);
    bytes_field(1, &value_type(1, 2), &mut out);

    // sample 1: packed ids and values, one text label
    let mut s = vec![];
    bytes_field(1, &packed(&[1, 2]), &mut s);
    bytes_field(2, &packed(&[1, 100]), &mut s);
    let mut label = vec![];
    int_field(1, 11, &mut label);
    int_field(2, 12, &mut label);
    bytes_field(3, &label, &mut s);
    bytes_field(2, &s, &mut out);

    // sample 2: ids and values one by one, one numeric label with unit
    let mut s = vec![];
    int_field(1, 2, &mut s);
    int_field(2, 2, &mut s);
    int_field(2, 200, &mut s);
    let mut label = vec![];
    int_field(1, 13, &mut label);
    int_field(3, 64, &mut label);
    int_field(4, 13, &mut label);
    bytes_field(3, &label, &mut s);
    bytes_field(2, &s, &mut out);

    // sample 3: a negative value
    let mut s = vec![];
    int_field(1, 3, &mut s);
    int_field(2, 3, &mut s);
    int_field(2, (-5i64) as u64, &mut s);
    bytes_field(2, &s, &mut out);

    bytes_field(3, &mapping(1), &mut out);
    bytes_field(4, &location(1, 1, 0x1234, &[line(2, 7), line(1, 20)]), &mut out);
    bytes_field(4, &location(2, 1, 0x1300, &[line(1, 21)]), &mut out);
    bytes_field(4, &location(3, 0, 0x5, &[]), &mut out);
    bytes_field(5, &function(1, 3, 3, 4, 10), &mut out);
    bytes_field(5, &function(2, 5, 3, 6, 5), &mut out);
    for s in STRINGS {
        bytes_field(6, s.as_bytes(), &mut out);
    }
    int_field(9, 1_000_000_000_000_000_000, &mut out);
    int_field(10, 10_500_000_000, &mut out);
    bytes_field(11, &value_type(1, 2), &mut out);
    int_field(12, 10_000_000, &mut out);
    int_field(13, 14, &mut out);
    int_field(14, 1, &mut out);
    // a field that this schema does not know is passed over
    int_field(99, 7, &mut out);
    out
}

const GOLDEN: &str = "Comment: comment 1
PeriodType: cpu nanoseconds
Period: 10000000
Time UTC: 2001-09-09 01:46:40
Duration: 10.5s
Samples:
samples/count cpu/nanoseconds[dflt]
          1        100: 1 2
                key1:[val1]
          2        200: 2
                bytes:[64 bytes ]
          3         -5: 3
Locations
     1: 0x1234 M=1 foo foo.go:7 s=5(main)
             main main.go:20 s=10
     2: 0x1300 M=1 main main.go:21 s=10
     3: 0x5 
Mappings
1: 0x1000/0x2000/0x0 bin build1 [FN]
";

fn gzip(raw: &[u8]) -> Vec<u8> {
    let mut e = GzEncoder::new(Vec::new(), Compression::default());
    e.write_all(raw).unwrap();
    e.finish().unwrap()
}

#[test]
fn uncompressed_profile_renders_to_golden() {
    let mut data = encoded_profile();
    let p = Buffer::decode(&mut data).unwrap();
    assert_eq!(p.to_string(), GOLDEN);
    // the bytes are used up
    assert!(data.is_empty());
}

#[test]
fn rendering_is_deterministic() {
    let p = Buffer::unmarshal(encoded_profile()).unwrap();
    let q = Buffer::unmarshal(encoded_profile()).unwrap();
    assert_eq!(p, q);
    assert_eq!(p.to_string(), p.to_string());
    assert_eq!(p.to_string(), q.to_string());
}

#[test]
fn gzip_envelope_is_transparent() {
    let raw = encoded_profile();
    let mut wrapped = gzip(&raw);
    assert_eq!(&wrapped[..2], &[0x1f, 0x8b]);
    let kept = wrapped.clone();
    let p = Buffer::decode(&mut wrapped).unwrap();
    let q = Buffer::unmarshal(raw).unwrap();
    assert_eq!(p, q);
    assert_eq!(p.to_string(), GOLDEN);
    // wrapped bytes are left as they were
    assert_eq!(wrapped, kept);
}

#[test]
fn broken_gzip_fails_to_uncompress() {
    let mut wrapped = gzip(&encoded_profile());
    let n = wrapped.len();
    wrapped.truncate(n / 2);
    let err = Buffer::unmarshal(wrapped).unwrap_err();
    assert_eq!(err.kind(), ErrorKind::ProfileUncompressFailed);
    assert!(!err.reason().is_empty());
    let err = Buffer::unmarshal(vec![0x1f, 0x8b]).unwrap_err();
    assert_eq!(err.kind(), ErrorKind::ProfileUncompressFailed);
}

#[test]
fn decoded_profile_is_linked() {
    let p = Buffer::unmarshal(encoded_profile()).unwrap();
    assert_eq!(p.validate(), Ok(()));
    assert_eq!(p.string_table[0], "");
    assert_eq!(p.sample.len(), 3);
    for s in &p.sample {
        assert_eq!(s.location.len(), s.location_index.len());
        for (l, id) in s.location.iter().zip(s.location_index.iter()) {
            assert_eq!(l.id, *id);
        }
        assert_eq!(s.value.len(), p.sample_type.len());
        for i in 0..s.num_unit_label.len() {
            let key = s.num_unit_label.key_at(i);
            assert_eq!(
                s.num_unit_label.value_at(i).len(),
                s.num_label.get(key).unwrap().len()
            );
        }
    }
    assert_eq!(p.sample[0].label.get("key1"), Some(&vec![String::from("val1")]));
    assert_eq!(p.sample[1].num_label.get("bytes"), Some(&vec![64]));
    assert_eq!(p.sample[1].num_unit_label.get("bytes"), Some(&vec![String::from("bytes")]));
    assert_eq!(p.sample[2].value, vec![3, -5]);
    assert_eq!(p.location[0].mapping.as_ref().unwrap().filename, "bin");
    assert_eq!(p.location[2].mapping, None);
    assert_eq!(p.location[0].line[0].function.name, "foo");
    assert_eq!(p.location[0].line[0].function.system_name, "main");
    assert_eq!(p.function[0].filename, "main.go");
    assert_eq!(p.sample_type[1].ty, "cpu");
    assert_eq!(p.period_type.as_ref().unwrap().unit, "nanoseconds");
    assert_eq!(p.comments, vec![String::from("comment 1")]);
    assert_eq!(p.default_sample_type, "cpu");
    assert_eq!(p.duration_nanos, 10_500_000_000);
    let (units, ignored) = p.num_label_units().unwrap();
    assert_eq!(units.get("bytes"), Some(&String::from("bytes")));
    assert!(ignored.is_empty());
}

#[test]
fn truncated_profile_fails_to_decode() {
    let raw = encoded_profile();
    // every cut inside the first sample type is inside a field
    for cut in 1..6 {
        let err = Buffer::unmarshal(raw[..cut].to_vec()).unwrap_err();
        assert_eq!(err.kind(), ErrorKind::DecodeFieldFailed, "cut at {}", cut);
    }
    // a cut in the middle of the string table
    let cut = raw.len() - 40;
    let err = Buffer::unmarshal(raw[..cut].to_vec()).unwrap_err();
    assert_eq!(err.kind(), ErrorKind::DecodeFieldFailed);
    // a failure leaves the bytes as they were
    let mut data = raw[..5].to_vec();
    assert!(Buffer::decode(&mut data).is_err());
    assert_eq!(data, raw[..5].to_vec());
}

#[test]
fn string_table_has_to_start_with_the_empty_string() {
    let mut data = vec![];
    bytes_field(6, b"first", &mut data);
    let err = Buffer::unmarshal(data.clone()).unwrap_err();
    assert_eq!(err.kind(), ErrorKind::DecodeFieldFailed);
    assert_eq!(err.reason(), "String table[0] should be empty");
    let mut p = Profile::default();
    let mut buf = Buffer::new();
    assert!(decode_message(&mut buf, &mut data, &mut p).is_err());
    assert_eq!(p, Profile::default());
}

#[test]
fn two_time_fields_are_concatenated_profiles() {
    let mut data = encoded_profile();
    int_field(9, 5, &mut data);
    let err = Buffer::unmarshal(data).unwrap_err();
    assert_eq!(err.kind(), ErrorKind::DecodeFieldFailed);
    assert_eq!(err.reason(), "concatenated profiles detected");
}

#[test]
fn string_that_is_not_utf8_fails() {
    let mut data = vec![];
    bytes_field(6, b"", &mut data);
    bytes_field(6, &[0xc3, 0x28], &mut data);
    let err = Buffer::unmarshal(data).unwrap_err();
    assert_eq!(err.kind(), ErrorKind::DecodeFieldFailed);
}

#[test]
fn malformed_nested_message_fails() {
    let mut data = vec![];
    // a sample whose packed values end inside a varint
    let mut s = vec![];
    bytes_field(2, &[0x80], &mut s);
    bytes_field(2, &s, &mut data);
    assert_eq!(Buffer::unmarshal(data).unwrap_err().kind(), ErrorKind::DecodeFieldFailed);
    // a sample value with a fixed-width wire type
    let mut data = vec![];
    let mut s = vec![];
    s.push((2 << 3) | 1);
    s.extend_from_slice(&[0; 8]);
    bytes_field(2, &s, &mut data);
    let err = Buffer::unmarshal(data).unwrap_err();
    assert_eq!(err.reason(), "value is not varint type");
}

#[test]
fn message_scratch_has_to_be_length_delimited() {
    let mut data = encoded_profile();
    let mut buf = Buffer::new();
    buf.ty = rock::profile::buffer::WireTypes::WireVarint;
    let mut p = Profile::default();
    let err = decode_message(&mut buf, &mut data, &mut p).unwrap_err();
    assert_eq!(err.kind(), ErrorKind::DecodeFieldFailed);
    assert_eq!(data, encoded_profile());
    // with a scratch for a region the message decodes, before linking
    let mut buf = Buffer::new();
    decode_message(&mut buf, &mut data, &mut p).unwrap();
    assert!(data.is_empty());
    assert_eq!(buf.field, 99);
    assert_eq!(buf.value, 7);
    assert_eq!(p.sample.len(), 3);
    assert_eq!(p.sample[0].location_index, vec![1, 2]);
    assert!(p.sample[0].location.is_empty());
    assert_eq!(p.string_table.len(), 15);
    assert_eq!(p.time_nanos, 1_000_000_000_000_000_000);
    assert_eq!(p.comment_index, vec![14]);
    assert_eq!(p.mapping[0].filename, "");
    assert_eq!(p.mapping[0].filename_index, 7);
}

#[test]
fn empty_input_is_not_valid() {
    // without string table not even the empty name of the frames to drop is
    // there
    let err = Buffer::unmarshal(vec![]).unwrap_err();
    assert_eq!(err.kind(), ErrorKind::ValidationFailed);
    // with a string table there are still neither sample types nor samples
    let mut data = vec![];
    bytes_field(6, b"", &mut data);
    let err = Buffer::unmarshal(data).unwrap_err();
    assert_eq!(err.kind(), ErrorKind::ValidationFailed);
    assert_eq!(err.reason(), "missing sample type information");
}

#[test]
fn index_out_of_the_string_table_fails_to_link() {
    let mut data = vec![];
    bytes_field(1, &value_type(5, 0), &mut data);
    bytes_field(6, b"", &mut data);
    let err = Buffer::unmarshal(data.clone()).unwrap_err();
    assert_eq!(err.kind(), ErrorKind::ValidationFailed);
    // linking leaves the profile as it was
    let mut p = Profile::default();
    let mut buf = Buffer::new();
    decode_message(&mut buf, &mut data, &mut p).unwrap();
    let before = format!("{:?}", p);
    assert!(p.post_decode().is_err());
    assert_eq!(format!("{:?}", p), before);
}

#[test]
fn sample_of_unknown_location_fails_to_link() {
    let mut data = vec![];
    bytes_field(1, &value_type(0, 0), &mut data);
    let mut s = vec![];
    int_field(1, 42, &mut s);
    int_field(2, 1, &mut s);
    bytes_field(2, &s, &mut data);
    bytes_field(6, b"", &mut data);
    let err = Buffer::unmarshal(data).unwrap_err();
    assert_eq!(err.kind(), ErrorKind::ValidationFailed);
    assert_eq!(err.reason(), "sample refers to a location that is not in the profile");
}

#[test]
fn frame_of_unknown_function_fails_to_link() {
    let mut data = vec![];
    bytes_field(1, &value_type(0, 0), &mut data);
    bytes_field(4, &location(1, 0, 1, &[line(9, 1)]), &mut data);
    bytes_field(6, b"", &mut data);
    let err = Buffer::unmarshal(data).unwrap_err();
    assert_eq!(err.kind(), ErrorKind::ValidationFailed);
}

#[test]
fn text_with_a_given_time() {
    let p = Buffer::unmarshal(encoded_profile()).unwrap();
    assert_eq!(p.text_at(Some("2001-09-09 01:46:40")), GOLDEN);
    let other = p.text_at(Some("now"));
    assert!(other.contains("\nTime UTC: now\nDuration: 10.5s\n"));
    // without a text of the time there is no line of the time
    let none = p.text_at(None);
    assert_eq!(none, GOLDEN.replace("Time UTC: 2001-09-09 01:46:40\n", ""));
    // a profile without time has no line of the time either way
    let mut q = Buffer::unmarshal(encoded_profile()).unwrap();
    q.time_nanos = 0;
    assert_eq!(q.text_at(Some("never")), q.to_string());
    assert_eq!(q.to_string(), none);
}

#[test]
fn inflating_gives_the_bytes_back() {
    let raw = encoded_profile();
    assert_eq!(uncompress_gzip(&gzip(&raw)).unwrap(), raw);
    assert_eq!(uncompress_gzip(&gzip(&[])).unwrap(), Vec::<u8>::new());
    let err = uncompress_gzip(&raw).unwrap_err();
    assert_eq!(err.kind(), ErrorKind::ProfileUncompressFailed);
}

#[test]
fn bytes_that_look_like_gzip_inside_an_envelope() {
    // bytes without envelope that begin with the magic bytes of gzip: inside an
    // envelope they are decoded as a wire stream, by themselves they are
    // taken for an envelope
    let raw = vec![0x1f, 0x8b];
    let mut inner = raw.clone();
    let err = decode_raw(&mut inner).unwrap_err();
    assert_eq!(err.kind(), ErrorKind::DecodeFieldFailed);
    assert_eq!(err.reason(), "unknown wire type");
    let err = Buffer::unmarshal(gzip(&raw)).unwrap_err();
    assert_eq!(err.kind(), ErrorKind::DecodeFieldFailed);
    let err = Buffer::unmarshal(raw).unwrap_err();
    assert_eq!(err.kind(), ErrorKind::ProfileUncompressFailed);
}

#[test]
fn reasons_of_nested_faults() {
    // a location whose frame ends inside a varint
    let mut data = vec![];
    let mut l = vec![];
    bytes_field(4, &[0x08, 0x80], &mut l);
    bytes_field(4, &l, &mut data);
    let err = Buffer::unmarshal(data).unwrap_err();
    assert_eq!((err.kind(), err.reason()), (ErrorKind::DecodeFieldFailed, "bad varint"));
    // a mapping whose region is longer than what is left
    let mut data = vec![];
    bytes_field(3, &[0x2a, 0x05, 0x00], &mut data);
    let err = Buffer::unmarshal(data).unwrap_err();
    assert_eq!(err.reason(), "too much data");
    // comment indices that end inside a varint
    let mut data = vec![];
    bytes_field(13, &[0xff], &mut data);
    let err = Buffer::unmarshal(data).unwrap_err();
    assert_eq!(err.reason(), "bad varint");
    // a string that is no UTF-8
    let mut data = vec![];
    bytes_field(6, &[0xff], &mut data);
    let err = Buffer::unmarshal(data).unwrap_err();
    assert_eq!(err.reason(), "string is not UTF-8");
}

/// A profile of `n` functions, locations and samples, each stack twenty deep,
/// inside a gzip envelope.
fn large_profile(n: u64) -> Vec<u8> {
    let mut out = vec![];
    bytes_field(1, &value_type(1, 2), &mut out);
    for i in 0..n {
        let mut s = vec![];
        let stack: Vec<u64> = (0..20).map(|d| (i + d) % n + 1).collect();
        bytes_field(1, &packed(&stack), &mut s);
        bytes_field(2, &packed(&[i + 1]), &mut s);
        bytes_field(2, &s, &mut out);
    }
    bytes_field(3, &mapping(1), &mut out);
    for i in 0..n {
        bytes_field(4, &location(i + 1, 1, 0x1000 + i, &[line(i + 1, i + 10)]), &mut out);
    }
    for i in 0..n {
        bytes_field(5, &function(i + 1, 3 + i % 4, 3, 4, 1), &mut out);
    }
    for s in STRINGS {
        bytes_field(6, s.as_bytes(), &mut out);
    }
    out
}

#[test]
fn large_profile_goes_through() {
    let n = 1500;
    let raw = large_profile(n);
    let p = Buffer::unmarshal(gzip(&raw)).unwrap();
    assert_eq!(p.sample.len(), n as usize);
    assert_eq!(p.location.len(), n as usize);
    assert_eq!(p.function.len(), n as usize);
    assert_eq!(p.sample[7].location.len(), 20);
    assert_eq!(p.sample[7].location[0].id, 8);
    let text = p.to_string();
    assert_eq!(text.lines().count(), 2 + 1 + n as usize + 1 + n as usize + 1 + 1);
    assert!(text.ends_with("Mappings\n1: 0x1000/0x2000/0x0 bin build1 [FN]\n"));
    let opt = Options {
        sample_value: 0,
        sample_mean_divisor: None,
        obj_names: false,
        orig_fn_names: false,
        drop_negative: false,
        kept_nodes: None,
    };
    let g = Graph::new(&p, &opt).unwrap();
    // each location has its own line, so one node for each, and one
    // node for each of the four function names
    assert_eq!(g.nodes.len(), n as usize + 4);
    let total: i64 = g.nodes.iter().map(|node| node.flat).sum();
    assert_eq!(total, (n * (n + 1) / 2) as i64);
    for (u, node) in g.nodes.iter().enumerate() {
        for v in 0..g.nodes.len() {
            if let Some(e) = node.out.get(v) {
                assert_eq!(g.nodes[v].in_edges.get(u), Some(e));
            }
        }
    }
}
