//! What holds of decoding, linking and rendering as a whole.

use crate::errors::ErrorKind;
use crate::profile::buffer::{
    field_at, fields_of, fixed32_of, fixed64_of, lemma_field_bounds, lemma_varint_end_bounds,
    varint_acc, varint_end, varint_of, BufferView, WireTypes,
};
use crate::profile::decode::{
    decoded_profile, gzip_inflated, is_gzip, profile_of, raw_decoded,
};
use crate::keyed::{
    append_model, has_key, key_index, keys_of, lemma_insert_model, lemma_key_index_unique,
    lookup,
};
use crate::profile::index::lemma_last_position;
use crate::profile::label::Label;
use crate::profile::link::{
    count_under, find_by_id, label_linkable, label_step, labels_linkable, labels_state,
    link_sample, linkable, linked, linked_locations, linked_stack, list_under, pad_units,
    settle_units, text_at, LabelMaps,
};
use crate::text::strictly_ascending;
use crate::profile::decode::{profile_fold, profile_step};
use crate::profile::function::FunctionView;
use crate::profile::line::LineView;
use crate::profile::link::{
    link_function, link_line, link_location, link_mapping, link_value_type,
};
use crate::profile::location::LocationView;
use crate::profile::mapping::MappingView;
use crate::profile::render::profile_text;
use crate::profile::sample::SampleView;
use crate::profile::validate::{function_ids, location_ids, mapping_ids, profile_valid};
use crate::profile::value_type::ValueTypeView;
use crate::profile::{Profile, ProfileView};
use vstd::prelude::*;

verus! {

/// The text of a profile is a function of its values: two profiles with
/// the same values have the same text, byte for byte.
pub proof fn lemma_text_is_determined(a: Profile, b: Profile)
    requires
        a@ == b@,
    ensures
        profile_text(a@) == profile_text(b@),
{
}

/// After linking, every sample has one location for each of its location
/// ids, and the id of each location is the location id at its place.
pub proof fn lemma_linked_stack(p: ProfileView, i: int)
    requires
        linkable(p),
        0 <= i < p.sample.len(),
    ensures
        linked(p).sample[i].location.len() == linked(p).sample[i].location_index.len(),
        forall|k: int|
            0 <= k < linked(p).sample[i].location.len() ==> (#[trigger] linked(
                p,
            ).sample[i].location[k]).id == linked(p).sample[i].location_index[k],
{
    let table = linked_locations(p);
    let before = p.sample[i];
    assert(link_sample(before, p.string_table, table) is Some);
    let s = linked(p).sample[i];
    assert(s == link_sample(before, p.string_table, table)->0);
    assert(s.location == linked_stack(before.location_index, table));
    assert forall|k: int| 0 <= k < s.location.len() implies (#[trigger] s.location[k]).id
        == s.location_index[k] by {
        let id = before.location_index[k];
        assert(find_by_id(location_ids(table), table, id) is Some);
        lemma_last_position(location_ids(table), id);
    }
}

/// The gzip envelope is transparent: bytes that inflate to `raw` decode
/// to what `raw` decodes to. This holds of every `raw` that does not
/// itself begin with the magic bytes of gzip.
pub proof fn lemma_envelope_is_transparent(wrapped: Seq<u8>, raw: Seq<u8>)
    requires
        is_gzip(wrapped),
        gzip_inflated(wrapped) == Ok::<Seq<u8>, Seq<char>>(raw),
        !is_gzip(raw),
    ensures
        decoded_profile(wrapped) == decoded_profile(raw),
{
}

/// A prefix of bytes ends a varint where the bytes end it, and holds
/// the same value up to there.
proof fn lemma_varint_prefix(b: Seq<u8>, m: int, i: nat)
    requires
        0 <= m <= b.len(),
    ensures
        match varint_end(b, i) {
            Some(n) => varint_end(b.take(m), i) == (if n <= m {
                Some(n)
            } else {
                None::<nat>
            }),
            None => varint_end(b.take(m), i).is_none(),
        },
    decreases 10 - i,
{
    lemma_varint_end_bounds(b, i);
    if i < 10 && i < b.len() {
        if i < m {
            assert(b.take(m)[i as int] == b[i as int]);
            lemma_varint_prefix(b, m, i + 1);
        }
    }
}

proof fn lemma_varint_acc_prefix(b: Seq<u8>, m: int, n: nat)
    requires
        n <= m <= b.len(),
    ensures
        varint_acc(b.take(m), n) == varint_acc(b, n),
    decreases n,
{
    if n > 0 {
        lemma_varint_acc_prefix(b, m, (n - 1) as nat);
        assert(b.take(m)[n - 1] == b[n - 1]);
    }
}

/// A prefix that holds all of a varint holds the same varint; a shorter
/// prefix holds none.
proof fn lemma_varint_of_prefix(b: Seq<u8>, m: int)
    requires
        0 <= m <= b.len(),
    ensures
        match varint_of(b) {
            Some((v, n)) => varint_of(b.take(m)) == (if n <= m {
                Some((v, n))
            } else {
                None::<(u64, nat)>
            }),
            None => varint_of(b.take(m)).is_none(),
        },
{
    lemma_varint_prefix(b, m, 0);
    if let Some(n) = varint_end(b, 0) {
        if n <= m {
            lemma_varint_acc_prefix(b, m, n);
        }
    }
}

/// A prefix that holds all of a field holds the same field; a shorter
/// prefix holds none.
pub proof fn lemma_field_prefix(b: Seq<u8>, m: int)
    requires
        0 <= m <= b.len(),
    ensures
        match field_at(b) {
            Some((f, n)) => field_at(b.take(m)) == (if n <= m {
                Some((f, n))
            } else {
                None::<(BufferView, nat)>
            }),
            None => field_at(b.take(m)).is_none(),
        },
{
    lemma_varint_of_prefix(b, m);
    lemma_varint_end_bounds(b, 0);
    if let Some((key, n)) = varint_of(b) {
        if n <= m {
            if let Some(ty) = WireTypes::of_code(key & 7) {
                let rest = b.skip(n as int);
                let cut = b.take(m).skip(n as int);
                assert(cut =~= rest.take(m - n));
                lemma_varint_of_prefix(rest, m - n);
                lemma_varint_end_bounds(rest, 0);
                match ty {
                    WireTypes::WireVarint => {},
                    WireTypes::WireFixed64 => {
                        if rest.len() >= 8 && m - n >= 8 {
                            assert(fixed64_of(cut) == fixed64_of(rest));
                        }
                    },
                    WireTypes::WireBytes => {
                        if let Some((len, k)) = varint_of(rest) {
                            if k <= m - n && len <= rest.len() - k && len <= cut.len() - k {
                                assert(cut.subrange(k as int, k + len) =~= rest.subrange(
                                    k as int,
                                    k + len,
                                ));
                            }
                        }
                    },
                    WireTypes::WireFixed32 => {
                        if rest.len() >= 4 && m - n >= 4 {
                            assert(fixed32_of(cut) == fixed32_of(rest));
                        }
                    },
                }
            }
        }
    }
}

/// Whether the first `m` bytes of a message end with the end of a
/// field of the message.
pub open spec fn ends_a_field(b: Seq<u8>, m: int) -> bool
    decreases b.len(),
{
    if m == 0 {
        true
    } else {
        match field_at(b) {
            Some((f, n)) if 0 < n <= b.len() => n <= m && ends_a_field(b.skip(n as int), m - n),
            _ => false,
        }
    }
}

/// A prefix of a well-formed message that does not end with the end of
/// a field is malformed.
pub proof fn lemma_cut_field_is_malformed(b: Seq<u8>, m: int)
    requires
        fields_of(b) is Some,
        0 <= m <= b.len(),
        !ends_a_field(b, m),
    ensures
        fields_of(b.take(m)).is_none(),
    decreases b.len(),
{
    lemma_field_bounds(b);
    lemma_field_prefix(b, m);
    let (f, n) = field_at(b)->0;
    if n <= m {
        lemma_field_bounds(b.take(m));
        assert(b.take(m).skip(n as int) =~= b.skip(n as int).take(m - n));
        lemma_cut_field_is_malformed(b.skip(n as int), m - n);
    }
}

/// Decoding a truncated profile fails with `DecodeFieldFailed`: this
/// holds of every prefix of well-formed bytes without envelope that cuts
/// a field of the top-level message.
pub proof fn lemma_truncated_fails(b: Seq<u8>, m: int)
    requires
        !is_gzip(b),
        fields_of(b) is Some,
        0 <= m <= b.len(),
        !ends_a_field(b, m),
    ensures
        decoded_profile(b.take(m)) == Err::<ProfileView, ErrorKind>(ErrorKind::DecodeFieldFailed),
{
    lemma_cut_field_is_malformed(b, m);
    if m >= 2 {
        assert(b.take(m)[0] == b[0]);
        assert(b.take(m)[1] == b[1]);
    }
}

/// The label maps are in order, and every key that has units has
/// numbers, and no more units than numbers.
pub open spec fn units_within(st: LabelMaps) -> bool {
    &&& strictly_ascending(keys_of(st.text))
    &&& strictly_ascending(keys_of(st.nums))
    &&& strictly_ascending(keys_of(st.units))
    &&& forall|k: Seq<char>| #[trigger]
        has_key(st.units, k) ==> has_key(st.nums, k) && list_under(st.units, k).len()
            <= count_under(st.nums, k)
}

proof fn lemma_append_model<T>(m: Seq<(Seq<char>, Seq<T>)>, key: Seq<char>, item: T)
    requires
        strictly_ascending(keys_of(m)),
    ensures
        strictly_ascending(keys_of(append_model(m, key, item))),
        has_key(append_model(m, key, item), key),
        count_under(append_model(m, key, item), key) == count_under(m, key) + 1,
        lookup(append_model(m, key, item), key) == Some(list_under(m, key).push(item)),
        forall|other: Seq<char>|
            other != key ==> #[trigger] lookup(append_model(m, key, item), other) == lookup(
                m,
                other,
            ),
        forall|other: Seq<char>|
            #[trigger] has_key(append_model(m, key, item), other) <==> has_key(m, other) || other
                == key,
{
    if has_key(m, key) {
        lemma_insert_model(m, key, m[key_index(m, key)].1.push(item));
    } else {
        lemma_insert_model(m, key, seq![item]);
        assert(seq![item] =~= Seq::<T>::empty().push(item));
    }
}

proof fn lemma_label_step(st: LabelMaps, lab: Label, table: Seq<Seq<char>>)
    requires
        units_within(st),
    ensures
        units_within(label_step(st, lab, table)),
{
    let key = text_at(table, lab.key_index)->0;
    let next = label_step(st, lab, table);
    if lab.str_index != 0 {
        lemma_append_model(st.text, key, text_at(table, lab.str_index)->0);
    } else if lab.num_index != 0 {
        lemma_append_model(st.nums, key, lab.num_index);
        let n = count_under(st.nums, key);
        if lab.num_unit_index != 0 {
            let list = pad_units(list_under(st.units, key), n).push(
                text_at(table, lab.num_unit_index)->0,
            );
            lemma_insert_model(st.units, key, list);
            assert(list_under(st.units, key).len() <= n) by {
                if has_key(st.units, key) {
                } else {
                    assert(lookup(st.units, key).is_none());
                }
            }
            assert(list.len() == n + 1);
            assert forall|k: Seq<char>| #[trigger] has_key(next.units, k) implies has_key(
                next.nums,
                k,
            ) && list_under(next.units, k).len() <= count_under(next.nums, k) by {
                if k != key {
                    assert(lookup(next.units, k) == lookup(st.units, k));
                    assert(lookup(next.nums, k) == lookup(st.nums, k));
                    assert(has_key(st.units, k));
                }
            }
        } else {
            assert forall|k: Seq<char>| #[trigger] has_key(next.units, k) implies has_key(
                next.nums,
                k,
            ) && list_under(next.units, k).len() <= count_under(next.nums, k) by {
                if k != key {
                    assert(lookup(next.nums, k) == lookup(st.nums, k));
                }
            }
        }
    }
}

proof fn lemma_labels_state(labels: Seq<Label>, table: Seq<Seq<char>>)
    ensures
        units_within(labels_state(labels, table)),
    decreases labels.len(),
{
    if labels.len() == 0 {
        let st = labels_state(labels, table);
        assert(keys_of(st.text) =~= Seq::<Seq<char>>::empty());
        assert(keys_of(st.nums) =~= Seq::<Seq<char>>::empty());
        assert(keys_of(st.units) =~= Seq::<Seq<char>>::empty());
        assert forall|k: Seq<char>| !has_key(st.units, k) by {
            assert(st.units.len() == 0);
        }
    } else {
        lemma_labels_state(labels.drop_last(), table);
        lemma_label_step(labels_state(labels.drop_last(), table), labels.last(), table);
    }
}

/// Settling the units leaves the keys as they are and brings each list
/// of units to the count of the numbers under its key.
proof fn lemma_settled(st: LabelMaps, key: Seq<char>)
    requires
        units_within(st),
        has_key(settle_units(st.units, st.nums), key),
    ensures
        has_key(st.nums, key),
        lookup(settle_units(st.units, st.nums), key)->0.len() == count_under(st.nums, key),
{
    let settled = settle_units(st.units, st.nums);
    let i = key_index(settled, key);
    assert(settled[i].0 == st.units[i].0);
    assert(keys_of(settled) =~= keys_of(st.units));
    lemma_key_index_unique(st.units, key, i);
    lemma_key_index_unique(settled, key, i);
    assert(has_key(st.units, key));
    assert(settled[i].1 == pad_units(st.units[i].1, count_under(st.nums, key)));
    assert(list_under(st.units, key) == st.units[i].1);
}

/// After linking, every key of a sample that has units has numbers, and
/// as many units as numbers.
pub proof fn lemma_linked_units(p: ProfileView, i: int, key: Seq<char>)
    requires
        linkable(p),
        0 <= i < p.sample.len(),
        has_key(linked(p).sample[i].num_unit_label, key),
    ensures
        has_key(linked(p).sample[i].num_label, key),
        lookup(linked(p).sample[i].num_unit_label, key)->0.len() == lookup(
            linked(p).sample[i].num_label,
            key,
        )->0.len(),
{
    let before = p.sample[i];
    assert(link_sample(before, p.string_table, linked_locations(p)) is Some);
    let st = labels_state(before.label_index, p.string_table);
    lemma_labels_state(before.label_index, p.string_table);
    lemma_settled(st, key);
}

/// The first string of the string table, where there is one, is empty.
pub open spec fn table_head_empty(table: Seq<Seq<char>>) -> bool {
    table.len() > 0 ==> table[0].len() == 0
}

/// The strings of a value type are those that its indices stand for.
pub open spec fn value_type_resolved(v: ValueTypeView, table: Seq<Seq<char>>) -> bool {
    text_at(table, v.type_index) == Some(v.ty) && text_at(table, v.unit_index) == Some(v.unit)
}

/// The strings of a mapping are those that its indices stand for.
pub open spec fn mapping_resolved(m: MappingView, table: Seq<Seq<char>>) -> bool {
    text_at(table, m.filename_index) == Some(m.filename) && text_at(table, m.build_id_index)
        == Some(m.build_id)
}

/// The strings of a function are those that its indices stand for.
pub open spec fn function_resolved(f: FunctionView, table: Seq<Seq<char>>) -> bool {
    text_at(table, f.name_index) == Some(f.name) && text_at(table, f.system_name_index) == Some(
        f.system_name,
    ) && text_at(table, f.filename_index) == Some(f.filename)
}

/// Every index into the string table is in range, and every string is
/// the one that its index stands for.
pub open spec fn strings_resolved(p: ProfileView) -> bool {
    &&& forall|i: int|
        0 <= i < p.mapping.len() ==> mapping_resolved(#[trigger] p.mapping[i], p.string_table)
    &&& forall|i: int|
        0 <= i < p.function.len() ==> function_resolved(#[trigger] p.function[i], p.string_table)
    &&& forall|i: int|
        0 <= i < p.sample_type.len() ==> value_type_resolved(
            #[trigger] p.sample_type[i],
            p.string_table,
        )
    &&& p.period_type matches Some(v) ==> value_type_resolved(v, p.string_table)
    &&& text_at(p.string_table, p.drop_frames_index) == Some(p.drop_frames)
    &&& text_at(p.string_table, p.keep_frames_index) == Some(p.keep_frames)
    &&& text_at(p.string_table, p.default_sample_type_index) == Some(p.default_sample_type)
    &&& p.comments.len() == p.comment_index.len()
    &&& forall|i: int|
        0 <= i < p.comments.len() ==> text_at(p.string_table, p.comment_index[i]) == Some(
            #[trigger] p.comments[i],
        )
}

/// The locations of a sample are those of the table that its location
/// ids stand for.
pub open spec fn sample_resolved(s: SampleView, locations: Seq<LocationView>) -> bool {
    &&& s.location.len() == s.location_index.len()
    &&& forall|k: int|
        0 <= k < s.location.len() ==> (#[trigger] s.location[k]).id == s.location_index[k]
            && locations.contains(s.location[k])
}

/// The function of a frame with a function id is the function of the
/// table that the id stands for.
pub open spec fn line_resolved(ln: LineView, functions: Seq<FunctionView>) -> bool {
    ln.function_index != 0 ==> ln.function.id == ln.function_index && functions.contains(
        ln.function,
    )
}

/// The mapping of a location, where it has one, is the mapping of the
/// table that its mapping id stands for, and each of its frames is
/// resolved.
pub open spec fn location_resolved(
    l: LocationView,
    mappings: Seq<MappingView>,
    functions: Seq<FunctionView>,
) -> bool {
    &&& l.mapping matches Some(m) ==> m.id == l.mapping_index && mappings.contains(m)
    &&& forall|k: int| 0 <= k < l.line.len() ==> line_resolved(#[trigger] l.line[k], functions)
}

/// Every reference to a mapping, a function or a location resolves to
/// an entity of its table.
pub open spec fn references_resolved(p: ProfileView) -> bool {
    &&& forall|i: int|
        0 <= i < p.sample.len() ==> sample_resolved(#[trigger] p.sample[i], p.location)
    &&& forall|i: int|
        0 <= i < p.location.len() ==> location_resolved(
            #[trigger] p.location[i],
            p.mapping,
            p.function,
        )
}

/// What holds of every profile that decoding gives: the head of the
/// string table is empty, the strings and the references are resolved, and
/// the structural rules are kept.
pub open spec fn well_formed(p: ProfileView) -> bool {
    &&& table_head_empty(p.string_table)
    &&& strings_resolved(p)
    &&& references_resolved(p)
    &&& profile_valid(p)
}

proof fn lemma_fold_keeps_head(fields: Seq<BufferView>, p: ProfileView)
    requires
        table_head_empty(p.string_table),
        profile_fold(fields, p) is Some,
    ensures
        table_head_empty(profile_fold(fields, p)->0.string_table),
    decreases fields.len(),
{
    if fields.len() > 0 {
        let next = profile_step(p, fields[0])->0;
        lemma_fold_keeps_head(fields.drop_first(), next);
    }
}

proof fn lemma_linked_strings(p: ProfileView)
    requires
        linkable(p),
    ensures
        strings_resolved(linked(p)),
{
    let q = linked(p);
    let t = p.string_table;
    assert forall|i: int| 0 <= i < q.mapping.len() implies mapping_resolved(
        #[trigger] q.mapping[i],
        t,
    ) by {
        assert(link_mapping(p.mapping[i], t) is Some);
    }
    assert forall|i: int| 0 <= i < q.function.len() implies function_resolved(
        #[trigger] q.function[i],
        t,
    ) by {
        assert(link_function(p.function[i], t) is Some);
    }
    assert forall|i: int| 0 <= i < q.sample_type.len() implies value_type_resolved(
        #[trigger] q.sample_type[i],
        t,
    ) by {
        assert(link_value_type(p.sample_type[i], t) is Some);
    }
    assert forall|i: int| 0 <= i < q.comments.len() implies text_at(t, q.comment_index[i])
        == Some(#[trigger] q.comments[i]) by {
        assert(text_at(t, p.comment_index[i]) is Some);
    }
}

proof fn lemma_linked_references(p: ProfileView)
    requires
        linkable(p),
    ensures
        references_resolved(linked(p)),
{
    let q = linked(p);
    assert forall|i: int| 0 <= i < q.sample.len() implies sample_resolved(
        #[trigger] q.sample[i],
        q.location,
    ) by {
        lemma_linked_stack(p, i);
        let s = q.sample[i];
        let before = p.sample[i];
        assert(link_sample(before, p.string_table, q.location) is Some);
        assert forall|k: int| 0 <= k < s.location.len() implies q.location.contains(
            #[trigger] s.location[k],
        ) by {
            let id = before.location_index[k];
            assert(find_by_id(location_ids(q.location), q.location, id) is Some);
            lemma_last_position(location_ids(q.location), id);
        }
    }
    assert forall|i: int| 0 <= i < q.location.len() implies location_resolved(
        #[trigger] q.location[i],
        q.mapping,
        q.function,
    ) by {
        let before = p.location[i];
        let l = q.location[i];
        assert(link_location(before, q.mapping, q.function) is Some);
        lemma_last_position(mapping_ids(q.mapping), before.mapping_index);
        assert forall|k: int| 0 <= k < l.line.len() implies line_resolved(
            #[trigger] l.line[k],
            q.function,
        ) by {
            let ln = before.line[k];
            assert(link_line(ln, q.function) is Some);
            lemma_last_position(function_ids(q.function), ln.function_index);
        }
    }
}

/// Every profile that decoding gives is well-formed, so validating it
/// succeeds.
pub proof fn lemma_decoded_is_well_formed(bytes: Seq<u8>)
    requires
        decoded_profile(bytes) is Ok,
    ensures
        well_formed(decoded_profile(bytes)->Ok_0),
{
    let raw = if is_gzip(bytes) {
        gzip_inflated(bytes)->Ok_0
    } else {
        bytes
    };
    assert(decoded_profile(bytes) == raw_decoded(raw));
    let fields = fields_of(raw)->0;
    let p = profile_of(raw)->0;
    lemma_fold_keeps_head(fields, ProfileView::empty());
    lemma_linked_strings(p);
    lemma_linked_references(p);
}

/// The texts of the text labels of a key, in the order of the wire.
pub open spec fn texts_under(labels: Seq<Label>, table: Seq<Seq<char>>, key: Seq<char>) -> Seq<
    Seq<char>,
>
    decreases labels.len(),
{
    if labels.len() == 0 {
        Seq::empty()
    } else {
        let before = texts_under(labels.drop_last(), table, key);
        let lab = labels.last();
        if text_at(table, lab.key_index) == Some(key) && lab.str_index != 0 {
            before.push(text_at(table, lab.str_index)->0)
        } else {
            before
        }
    }
}

/// Whether a label is a numeric label of a key.
pub open spec fn is_number_of(lab: Label, table: Seq<Seq<char>>, key: Seq<char>) -> bool {
    text_at(table, lab.key_index) == Some(key) && lab.str_index == 0 && lab.num_index != 0
}

/// The numbers of the numeric labels of a key, in the order of the wire.
pub open spec fn numbers_under(labels: Seq<Label>, table: Seq<Seq<char>>, key: Seq<char>) -> Seq<
    i64,
>
    decreases labels.len(),
{
    if labels.len() == 0 {
        Seq::empty()
    } else {
        let before = numbers_under(labels.drop_last(), table, key);
        if is_number_of(labels.last(), table, key) {
            before.push(labels.last().num_index)
        } else {
            before
        }
    }
}

/// The units of the numeric labels of a key, in the order of the wire,
/// the empty unit standing for a label without unit.
pub open spec fn units_under(labels: Seq<Label>, table: Seq<Seq<char>>, key: Seq<char>) -> Seq<
    Seq<char>,
>
    decreases labels.len(),
{
    if labels.len() == 0 {
        Seq::empty()
    } else {
        let before = units_under(labels.drop_last(), table, key);
        let lab = labels.last();
        if is_number_of(lab, table, key) {
            before.push(
                if lab.num_unit_index != 0 {
                    text_at(table, lab.num_unit_index)->0
                } else {
                    Seq::empty()
                },
            )
        } else {
            before
        }
    }
}

/// Whether some numeric label of a key has a unit.
pub open spec fn any_unit(labels: Seq<Label>, table: Seq<Seq<char>>, key: Seq<char>) -> bool
    decreases labels.len(),
{
    if labels.len() == 0 {
        false
    } else {
        any_unit(labels.drop_last(), table, key) || (is_number_of(labels.last(), table, key)
            && labels.last().num_unit_index != 0)
    }
}

/// A list, or nothing for the empty list.
pub open spec fn unless_empty<T>(list: Seq<T>) -> Option<Seq<T>> {
    if list.len() > 0 {
        Some(list)
    } else {
        None
    }
}

/// What the label maps hold under a key after all the labels of a list:
/// the texts and the numbers of the labels of the key, and, up to empty
/// units at the end, their units, where one of them has a unit.
pub open spec fn maps_hold(
    st: LabelMaps,
    labels: Seq<Label>,
    table: Seq<Seq<char>>,
    key: Seq<char>,
) -> bool {
    &&& lookup(st.text, key) == unless_empty(texts_under(labels, table, key))
    &&& lookup(st.nums, key) == unless_empty(numbers_under(labels, table, key))
    &&& units_under(labels, table, key).len() == numbers_under(labels, table, key).len()
    &&& has_key(st.units, key) <==> any_unit(labels, table, key)
    &&& pad_units(list_under(st.units, key), count_under(st.nums, key)) == units_under(
        labels,
        table,
        key,
    )
}

proof fn lemma_maps_hold(labels: Seq<Label>, table: Seq<Seq<char>>, key: Seq<char>)
    requires
        labels_linkable(labels, table),
    ensures
        maps_hold(labels_state(labels, table), labels, table, key),
        units_within(labels_state(labels, table)),
    decreases labels.len(),
{
    lemma_labels_state(labels, table);
    let st = labels_state(labels, table);
    if labels.len() == 0 {
        assert(st.text.len() == 0 && st.nums.len() == 0 && st.units.len() == 0);
        assert(pad_units(list_under(st.units, key), count_under(st.nums, key))
            =~= units_under(labels, table, key));
    } else {
        let rest = labels.drop_last();
        let lab = labels.last();
        assert forall|i: int| 0 <= i < rest.len() implies label_linkable(
            #[trigger] rest[i],
            table,
        ) by {
            assert(label_linkable(labels[i], table));
        }
        assert(label_linkable(labels[labels.len() - 1], table));
        lemma_maps_hold(rest, table, key);
        let before = labels_state(rest, table);
        let k = text_at(table, lab.key_index)->0;
        assert(list_under(before.text, key) =~= texts_under(rest, table, key));
        assert(list_under(before.nums, key) =~= numbers_under(rest, table, key));
        let n = count_under(before.nums, key);
        let list = list_under(before.units, key);
        assert(list.len() <= n) by {
            if has_key(before.units, key) {
            } else {
                assert(lookup(before.units, key).is_none());
            }
        }
        if lab.str_index != 0 {
            lemma_append_model(before.text, k, text_at(table, lab.str_index)->0);
            if k != key {
                assert(lookup(st.text, key) == lookup(before.text, key));
            }
        } else if lab.num_index != 0 {
            lemma_append_model(before.nums, k, lab.num_index);
            if lab.num_unit_index != 0 {
                let unit = text_at(table, lab.num_unit_index)->0;
                let m = count_under(before.nums, k);
                let grown = pad_units(list_under(before.units, k), m).push(unit);
                lemma_insert_model(before.units, k, grown);
                if k == key {
                    assert(pad_units(grown, (n + 1) as nat) =~= grown);
                } else {
                    assert(lookup(st.nums, key) == lookup(before.nums, key));
                    assert(lookup(st.units, key) == lookup(before.units, key));
                }
            } else {
                if k == key {
                    assert(pad_units(list, (n + 1) as nat) =~= pad_units(list, n).push(
                        Seq::<char>::empty(),
                    ));
                } else {
                    assert(lookup(st.nums, key) == lookup(before.nums, key));
                }
            }
        }
    }
}

/// After linking, the label maps of a sample hold under every key the
/// texts of its text labels of that key, the numbers of its numeric
/// labels of that key, and, where one of those has a unit, their units,
/// all in the order of the wire.
pub proof fn lemma_linked_labels(p: ProfileView, i: int, key: Seq<char>)
    requires
        linkable(p),
        0 <= i < p.sample.len(),
    ensures
        ({
            let s = linked(p).sample[i];
            let labels = p.sample[i].label_index;
            &&& lookup(s.label, key) == unless_empty(texts_under(labels, p.string_table, key))
            &&& lookup(s.num_label, key) == unless_empty(
                numbers_under(labels, p.string_table, key),
            )
            &&& lookup(s.num_unit_label, key) == (if any_unit(labels, p.string_table, key) {
                Some(units_under(labels, p.string_table, key))
            } else {
                None
            })
        }),
{
    let before = p.sample[i];
    assert(link_sample(before, p.string_table, linked_locations(p)) is Some);
    let labels = before.label_index;
    let st = labels_state(labels, p.string_table);
    lemma_maps_hold(labels, p.string_table, key);
    let settled = settle_units(st.units, st.nums);
    assert(keys_of(settled) =~= keys_of(st.units));
    if has_key(st.units, key) {
        let j = key_index(st.units, key);
        assert(settled[j].0 == key);
        lemma_key_index_unique(settled, key, j);
    } else if has_key(settled, key) {
        let j = key_index(settled, key);
        assert(st.units[j].0 == key);
    }
}

/// After linking, the three label maps of every sample stand in the
/// ascending order of their keys, so no key occurs twice in a map.
pub proof fn lemma_linked_maps_are_ordered(p: ProfileView, i: int)
    requires
        linkable(p),
        0 <= i < p.sample.len(),
    ensures
        strictly_ascending(keys_of(linked(p).sample[i].label)),
        strictly_ascending(keys_of(linked(p).sample[i].num_label)),
        strictly_ascending(keys_of(linked(p).sample[i].num_unit_label)),
{
    let before = p.sample[i];
    assert(link_sample(before, p.string_table, linked_locations(p)) is Some);
    let st = labels_state(before.label_index, p.string_table);
    lemma_labels_state(before.label_index, p.string_table);
    assert(keys_of(settle_units(st.units, st.nums)) =~= keys_of(st.units));
}

} // verus!
