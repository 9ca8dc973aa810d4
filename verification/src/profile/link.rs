//! Linking: every index into the string table becomes its string, every
//! id of a mapping, function or location becomes the entity.

use crate::errors::{ErrorKind, RockError};
use crate::keyed::{append_model, insert_model, lookup, KeyedList};
use crate::profile::function::{Function, FunctionView};
use crate::profile::index::{last_position, lemma_last_position, IdIndex};
use crate::profile::label::Label;
use crate::profile::line::{Line, LineView};
use crate::profile::location::{Location, LocationView};
use crate::profile::mapping::{Mapping, MappingView};
use crate::profile::sample::{Sample, SampleView};
use crate::profile::validate::{first_fault, function_ids, location_ids, mapping_ids};
use crate::profile::value_type::{ValueType, ValueTypeView};
use crate::profile::{views, Profile, ProfileView};
use vstd::prelude::*;

verus! {

/// The string at an index of the string table, where the index is in range.
pub open spec fn text_at(table: Seq<Seq<char>>, index: i64) -> Option<Seq<char>> {
    if 0 <= index < table.len() {
        Some(table[index as int])
    } else {
        None
    }
}

/// The entity of a table that stands last under an id.
pub open spec fn find_by_id<T>(ids: Seq<u64>, table: Seq<T>, id: u64) -> Option<T> {
    match last_position(ids, id) {
        Some(p) => Some(table[p]),
        None => None,
    }
}

/// A mapping with its two strings resolved.
pub open spec fn link_mapping(m: MappingView, table: Seq<Seq<char>>) -> Option<MappingView> {
    match (text_at(table, m.filename_index), text_at(table, m.build_id_index)) {
        (Some(filename), Some(build_id)) => Some(MappingView { filename, build_id, ..m }),
        _ => None,
    }
}

/// A function with its three strings resolved.
pub open spec fn link_function(f: FunctionView, table: Seq<Seq<char>>) -> Option<FunctionView> {
    match (
        text_at(table, f.name_index),
        text_at(table, f.system_name_index),
        text_at(table, f.filename_index),
    ) {
        (Some(name), Some(system_name), Some(filename)) => Some(
            FunctionView { name, system_name, filename, ..f },
        ),
        _ => None,
    }
}

/// A value type with its two strings resolved.
pub open spec fn link_value_type(v: ValueTypeView, table: Seq<Seq<char>>) -> Option<
    ValueTypeView,
> {
    match (text_at(table, v.type_index), text_at(table, v.unit_index)) {
        (Some(ty), Some(unit)) => Some(ValueTypeView { ty, unit, ..v }),
        _ => None,
    }
}

/// A frame with its function resolved. A frame with function id 0 stays
/// as it is.
pub open spec fn link_line(ln: LineView, functions: Seq<FunctionView>) -> Option<LineView> {
    if ln.function_index == 0 {
        Some(ln)
    } else {
        match find_by_id(function_ids(functions), functions, ln.function_index) {
            Some(function) => Some(LineView { function, ..ln }),
            None => None,
        }
    }
}

/// Whether every frame of a list can be linked.
pub open spec fn lines_linkable(lines: Seq<LineView>, functions: Seq<FunctionView>) -> bool {
    forall|i: int| 0 <= i < lines.len() ==> link_line(#[trigger] lines[i], functions) is Some
}

/// The frames of a list, linked.
pub open spec fn linked_lines(lines: Seq<LineView>, functions: Seq<FunctionView>) -> Seq<
    LineView,
> {
    lines.map_values(|ln: LineView| link_line(ln, functions)->0)
}

/// A location with its mapping and the functions of its frames resolved.
/// A mapping id that the table does not hold leaves the mapping absent.
pub open spec fn link_location(
    l: LocationView,
    mappings: Seq<MappingView>,
    functions: Seq<FunctionView>,
) -> Option<LocationView> {
    if lines_linkable(l.line, functions) {
        Some(
            LocationView {
                mapping: find_by_id(mapping_ids(mappings), mappings, l.mapping_index),
                line: linked_lines(l.line, functions),
                ..l
            },
        )
    } else {
        None
    }
}

/// The three label maps of a sample.
pub struct LabelMaps {
    pub text: Seq<(Seq<char>, Seq<Seq<char>>)>,
    pub nums: Seq<(Seq<char>, Seq<i64>)>,
    pub units: Seq<(Seq<char>, Seq<Seq<char>>)>,
}

/// A list of units with as many empty units at its end as bring it to
/// `n` units.
pub open spec fn pad_units(list: Seq<Seq<char>>, n: nat) -> Seq<Seq<char>> {
    if list.len() >= n {
        list
    } else {
        list + Seq::new((n - list.len()) as nat, |i: int| Seq::<char>::empty())
    }
}

/// The number of values under a key.
pub open spec fn count_under<W>(m: Seq<(Seq<char>, Seq<W>)>, key: Seq<char>) -> nat {
    match lookup(m, key) {
        Some(list) => list.len(),
        None => 0,
    }
}

/// The list under a key, empty where there is none.
pub open spec fn list_under<W>(m: Seq<(Seq<char>, Seq<W>)>, key: Seq<char>) -> Seq<W> {
    match lookup(m, key) {
        Some(list) => list,
        None => Seq::empty(),
    }
}

/// Whether the indices that a label makes use of are in range.
pub open spec fn label_linkable(lab: Label, table: Seq<Seq<char>>) -> bool {
    &&& text_at(table, lab.key_index) is Some
    &&& lab.str_index != 0 ==> text_at(table, lab.str_index) is Some
    &&& lab.str_index == 0 && lab.num_index != 0 && lab.num_unit_index != 0 ==> text_at(
        table,
        lab.num_unit_index,
    ) is Some
}

/// The label maps after one more label. A text label adds its text under
/// its key. A numeric label adds its number under its key; where it has a
/// unit, the units under the key are first brought to the count of the
/// numbers that are there, then the unit is added.
pub open spec fn label_step(st: LabelMaps, lab: Label, table: Seq<Seq<char>>) -> LabelMaps {
    let key = text_at(table, lab.key_index)->0;
    if lab.str_index != 0 {
        LabelMaps { text: append_model(st.text, key, text_at(table, lab.str_index)->0), ..st }
    } else if lab.num_index != 0 {
        let units = if lab.num_unit_index != 0 {
            insert_model(
                st.units,
                key,
                pad_units(list_under(st.units, key), count_under(st.nums, key)).push(
                    text_at(table, lab.num_unit_index)->0,
                ),
            )
        } else {
            st.units
        };
        LabelMaps { nums: append_model(st.nums, key, lab.num_index), units, ..st }
    } else {
        st
    }
}

/// The label maps after all the labels of a list, one after the other.
pub open spec fn labels_state(labels: Seq<Label>, table: Seq<Seq<char>>) -> LabelMaps
    decreases labels.len(),
{
    if labels.len() == 0 {
        LabelMaps { text: Seq::empty(), nums: Seq::empty(), units: Seq::empty() }
    } else {
        label_step(labels_state(labels.drop_last(), table), labels.last(), table)
    }
}

/// The units of each key, brought to the count of the numbers under it.
pub open spec fn settle_units(
    units: Seq<(Seq<char>, Seq<Seq<char>>)>,
    nums: Seq<(Seq<char>, Seq<i64>)>,
) -> Seq<(Seq<char>, Seq<Seq<char>>)> {
    units.map_values(
        |e: (Seq<char>, Seq<Seq<char>>)| (e.0, pad_units(e.1, count_under(nums, e.0))),
    )
}

/// Whether every label of a list can be linked.
pub open spec fn labels_linkable(labels: Seq<Label>, table: Seq<Seq<char>>) -> bool {
    forall|i: int| 0 <= i < labels.len() ==> label_linkable(#[trigger] labels[i], table)
}

/// Whether every location id of a list is in the table.
pub open spec fn stack_linkable(stack: Seq<u64>, locations: Seq<LocationView>) -> bool {
    forall|i: int|
        0 <= i < stack.len() ==> find_by_id(
            location_ids(locations),
            locations,
            #[trigger] stack[i],
        ) is Some
}

/// The locations of a list of location ids.
pub open spec fn linked_stack(stack: Seq<u64>, locations: Seq<LocationView>) -> Seq<
    LocationView,
> {
    stack.map_values(|id: u64| find_by_id(location_ids(locations), locations, id)->0)
}

/// A sample with its labels and its locations resolved.
pub open spec fn link_sample(
    s: SampleView,
    table: Seq<Seq<char>>,
    locations: Seq<LocationView>,
) -> Option<SampleView> {
    if labels_linkable(s.label_index, table) && stack_linkable(s.location_index, locations) {
        let st = labels_state(s.label_index, table);
        Some(
            SampleView {
                location: linked_stack(s.location_index, locations),
                label: st.text,
                num_label: st.nums,
                num_unit_label: settle_units(st.units, st.nums),
                ..s
            },
        )
    } else {
        None
    }
}

/// The tables of a profile after linking, as far as they can be linked.
pub open spec fn linked_mappings(p: ProfileView) -> Seq<MappingView> {
    p.mapping.map_values(|m: MappingView| link_mapping(m, p.string_table)->0)
}

pub open spec fn linked_functions(p: ProfileView) -> Seq<FunctionView> {
    p.function.map_values(|f: FunctionView| link_function(f, p.string_table)->0)
}

pub open spec fn linked_locations(p: ProfileView) -> Seq<LocationView> {
    p.location.map_values(
        |l: LocationView| link_location(l, linked_mappings(p), linked_functions(p))->0,
    )
}

pub open spec fn linked_sample_types(p: ProfileView) -> Seq<ValueTypeView> {
    p.sample_type.map_values(|v: ValueTypeView| link_value_type(v, p.string_table)->0)
}

pub open spec fn linked_samples(p: ProfileView) -> Seq<SampleView> {
    p.sample.map_values(|s: SampleView| link_sample(s, p.string_table, linked_locations(p))->0)
}

pub open spec fn linked_comments(p: ProfileView) -> Seq<Seq<char>> {
    p.comment_index.map_values(|i: i64| text_at(p.string_table, i)->0)
}

/// Whether a profile can be linked: every index into the string table
/// that is made use of is in range, every nonzero function id of a frame
/// and every location id of a sample is in its table.
pub open spec fn linkable(p: ProfileView) -> bool {
    &&& forall|i: int|
        0 <= i < p.mapping.len() ==> link_mapping(#[trigger] p.mapping[i], p.string_table) is Some
    &&& forall|i: int|
        0 <= i < p.function.len() ==> link_function(
            #[trigger] p.function[i],
            p.string_table,
        ) is Some
    &&& forall|i: int|
        0 <= i < p.location.len() ==> link_location(
            #[trigger] p.location[i],
            linked_mappings(p),
            linked_functions(p),
        ) is Some
    &&& forall|i: int|
        0 <= i < p.sample_type.len() ==> link_value_type(
            #[trigger] p.sample_type[i],
            p.string_table,
        ) is Some
    &&& forall|i: int|
        0 <= i < p.sample.len() ==> link_sample(
            #[trigger] p.sample[i],
            p.string_table,
            linked_locations(p),
        ) is Some
    &&& p.period_type matches Some(v) ==> link_value_type(v, p.string_table) is Some
    &&& text_at(p.string_table, p.drop_frames_index) is Some
    &&& text_at(p.string_table, p.keep_frames_index) is Some
    &&& forall|i: int|
        0 <= i < p.comment_index.len() ==> text_at(
            p.string_table,
            #[trigger] p.comment_index[i],
        ) is Some
    &&& text_at(p.string_table, p.default_sample_type_index) is Some
}

/// The profile after linking.
pub open spec fn linked(p: ProfileView) -> ProfileView {
    ProfileView {
        sample_type: linked_sample_types(p),
        sample: linked_samples(p),
        mapping: linked_mappings(p),
        location: linked_locations(p),
        function: linked_functions(p),
        drop_frames: text_at(p.string_table, p.drop_frames_index)->0,
        keep_frames: text_at(p.string_table, p.keep_frames_index)->0,
        period_type: match p.period_type {
            Some(v) => link_value_type(v, p.string_table),
            None => None,
        },
        comments: linked_comments(p),
        default_sample_type: text_at(p.string_table, p.default_sample_type_index)->0,
        ..p
    }
}

/// In words: an index is out of the range of the string table.
pub open spec fn string_fault() -> Seq<char> {
    "index out of the range of the string table"@
}

/// In words: a frame has the id of a function that the profile lacks.
pub open spec fn frame_fault() -> Seq<char> {
    "frame refers to a function that is not in the profile"@
}

/// In words: a sample has the id of a location that the profile lacks.
pub open spec fn stack_fault() -> Seq<char> {
    "sample refers to a location that is not in the profile"@
}

/// Why a sample cannot be linked, in words: its labels are looked at
/// before its locations.
pub open spec fn sample_link_fault(
    s: SampleView,
    table: Seq<Seq<char>>,
    locations: Seq<LocationView>,
) -> Option<Seq<char>> {
    if !labels_linkable(s.label_index, table) {
        Some(string_fault())
    } else if !stack_linkable(s.location_index, locations) {
        Some(stack_fault())
    } else {
        None
    }
}

/// Why each sample cannot be linked.
pub open spec fn sample_link_faults(p: ProfileView) -> Seq<Option<Seq<char>>> {
    p.sample.map_values(
        |s: SampleView| sample_link_fault(s, p.string_table, linked_locations(p)),
    )
}

/// Why a profile cannot be linked, in words; none where it can. The
/// parts of the profile are gone through in the order of linking: mappings,
/// functions, locations, sample types, samples, and the profile's own
/// strings.
pub open spec fn link_fault(p: ProfileView) -> Option<Seq<char>> {
    if !(forall|i: int|
        0 <= i < p.mapping.len() ==> link_mapping(#[trigger] p.mapping[i], p.string_table) is Some) {
        Some(string_fault())
    } else if !(forall|i: int|
        0 <= i < p.function.len() ==> link_function(
            #[trigger] p.function[i],
            p.string_table,
        ) is Some) {
        Some(string_fault())
    } else if !(forall|i: int|
        0 <= i < p.location.len() ==> link_location(
            #[trigger] p.location[i],
            linked_mappings(p),
            linked_functions(p),
        ) is Some) {
        Some(frame_fault())
    } else if !(forall|i: int|
        0 <= i < p.sample_type.len() ==> link_value_type(
            #[trigger] p.sample_type[i],
            p.string_table,
        ) is Some) {
        Some(string_fault())
    } else if first_fault(sample_link_faults(p)) is Some {
        first_fault(sample_link_faults(p))
    } else if !linkable(p) {
        Some(string_fault())
    } else {
        None
    }
}

/// A list without fault has no first fault.
pub proof fn lemma_no_fault(faults: Seq<Option<Seq<char>>>)
    requires
        forall|i: int| 0 <= i < faults.len() ==> (#[trigger] faults[i]).is_none(),
    ensures
        first_fault(faults).is_none(),
    decreases faults.len(),
{
    if faults.len() > 0 {
        assert(faults[0].is_none());
        assert forall|i: int| 0 <= i < faults.drop_first().len() implies (
        #[trigger] faults.drop_first()[i]).is_none() by {
            assert(faults[i + 1].is_none());
        }
        lemma_no_fault(faults.drop_first());
    }
}

/// The error of a profile that cannot be linked.
fn unlinked(reason: &str) -> (e: RockError)
    ensures
        e.kind_of() == ErrorKind::ValidationFailed,
        e.reason_text() == reason@,
{
    RockError::new(ErrorKind::ValidationFailed, reason)
}

/// The string at an index of the string table.
fn text_of(table: &Vec<String>, index: i64) -> (r: Result<String, RockError>)
    ensures
        match r {
            Ok(s) => text_at(table.deep_view(), index) == Some(s@),
            Err(e) => text_at(table.deep_view(), index).is_none() && e.kind_of()
                == ErrorKind::ValidationFailed && e.reason_text() == string_fault(),
        },
{
    if index < 0 || index as u64 >= table.len() as u64 {
        return Err(unlinked("index out of the range of the string table"));
    }
    Ok(table[index as usize].clone())
}

fn resolve_mapping(m: &Mapping, table: &Vec<String>) -> (r: Result<Mapping, RockError>)
    ensures
        match r {
            Ok(out) => link_mapping(m@, table.deep_view()) == Some(out@),
            Err(e) => link_mapping(m@, table.deep_view()).is_none() && e.kind_of()
                == ErrorKind::ValidationFailed && e.reason_text() == string_fault(),
        },
{
    let filename = text_of(table, m.filename_index)?;
    let build_id = text_of(table, m.build_id_index)?;
    Ok(
        Mapping {
            id: m.id,
            memory_start: m.memory_start,
            memory_limit: m.memory_limit,
            memory_offset: m.memory_offset,
            filename,
            build_id,
            has_function: m.has_function,
            has_filenames: m.has_filenames,
            has_line_numbers: m.has_line_numbers,
            has_inline_frames: m.has_inline_frames,
            filename_index: m.filename_index,
            build_id_index: m.build_id_index,
        },
    )
}

fn resolve_function(f: &Function, table: &Vec<String>) -> (r: Result<Function, RockError>)
    ensures
        match r {
            Ok(out) => link_function(f@, table.deep_view()) == Some(out@),
            Err(e) => link_function(f@, table.deep_view()).is_none() && e.kind_of()
                == ErrorKind::ValidationFailed && e.reason_text() == string_fault(),
        },
{
    let name = text_of(table, f.name_index)?;
    let system_name = text_of(table, f.system_name_index)?;
    let filename = text_of(table, f.filename_index)?;
    Ok(
        Function {
            id: f.id,
            name,
            system_name,
            filename,
            start_line: f.start_line,
            name_index: f.name_index,
            system_name_index: f.system_name_index,
            filename_index: f.filename_index,
        },
    )
}

fn resolve_value_type(v: &ValueType, table: &Vec<String>) -> (r: Result<ValueType, RockError>)
    ensures
        match r {
            Ok(out) => link_value_type(v@, table.deep_view()) == Some(out@),
            Err(e) => link_value_type(v@, table.deep_view()).is_none() && e.kind_of()
                == ErrorKind::ValidationFailed && e.reason_text() == string_fault(),
        },
{
    let ty = text_of(table, v.type_index)?;
    let unit = text_of(table, v.unit_index)?;
    Ok(ValueType { ty, unit, type_index: v.type_index, unit_index: v.unit_index })
}

fn resolve_mappings(list: &Vec<Mapping>, table: &Vec<String>) -> (r: Result<
    Vec<Mapping>,
    RockError,
>)
    ensures
        r is Ok <==> forall|i: int|
            0 <= i < list.len() ==> link_mapping(
                #[trigger] views(list@)[i],
                table.deep_view(),
            ) is Some,
        r matches Ok(out) ==> views(out@) == views(list@).map_values(
            |m: MappingView| link_mapping(m, table.deep_view())->0,
        ),
        r matches Err(e) ==> e.kind_of() == ErrorKind::ValidationFailed && e.reason_text()
            == string_fault(),
{
    let mut out: Vec<Mapping> = Vec::new();
    let mut i: usize = 0;
    while i < list.len()
        invariant
            i <= list.len(),
            out.len() == i,
            forall|j: int|
                0 <= j < i ==> link_mapping(#[trigger] views(list@)[j], table.deep_view())
                    == Some(out[j]@),
        decreases list.len() - i,
    {
        assert(views(list@)[i as int] == list[i as int]@);
        match resolve_mapping(&list[i], table) {
            Ok(m) => out.push(m),
            Err(e) => {
                return Err(e);
            },
        }
        i += 1;
    }
    assert(views(out@) =~= views(list@).map_values(
        |m: MappingView| link_mapping(m, table.deep_view())->0,
    ));
    Ok(out)
}

fn resolve_functions(list: &Vec<Function>, table: &Vec<String>) -> (r: Result<
    Vec<Function>,
    RockError,
>)
    ensures
        r is Ok <==> forall|i: int|
            0 <= i < list.len() ==> link_function(
                #[trigger] views(list@)[i],
                table.deep_view(),
            ) is Some,
        r matches Ok(out) ==> views(out@) == views(list@).map_values(
            |f: FunctionView| link_function(f, table.deep_view())->0,
        ),
        r matches Err(e) ==> e.kind_of() == ErrorKind::ValidationFailed && e.reason_text()
            == string_fault(),
{
    let mut out: Vec<Function> = Vec::new();
    let mut i: usize = 0;
    while i < list.len()
        invariant
            i <= list.len(),
            out.len() == i,
            forall|j: int|
                0 <= j < i ==> link_function(#[trigger] views(list@)[j], table.deep_view())
                    == Some(out[j]@),
        decreases list.len() - i,
    {
        assert(views(list@)[i as int] == list[i as int]@);
        match resolve_function(&list[i], table) {
            Ok(f) => out.push(f),
            Err(e) => {
                return Err(e);
            },
        }
        i += 1;
    }
    assert(views(out@) =~= views(list@).map_values(
        |f: FunctionView| link_function(f, table.deep_view())->0,
    ));
    Ok(out)
}

fn resolve_value_types(list: &Vec<ValueType>, table: &Vec<String>) -> (r: Result<
    Vec<ValueType>,
    RockError,
>)
    ensures
        r is Ok <==> forall|i: int|
            0 <= i < list.len() ==> link_value_type(
                #[trigger] views(list@)[i],
                table.deep_view(),
            ) is Some,
        r matches Ok(out) ==> views(out@) == views(list@).map_values(
            |v: ValueTypeView| link_value_type(v, table.deep_view())->0,
        ),
        r matches Err(e) ==> e.kind_of() == ErrorKind::ValidationFailed && e.reason_text()
            == string_fault(),
{
    let mut out: Vec<ValueType> = Vec::new();
    let mut i: usize = 0;
    while i < list.len()
        invariant
            i <= list.len(),
            out.len() == i,
            forall|j: int|
                0 <= j < i ==> link_value_type(#[trigger] views(list@)[j], table.deep_view())
                    == Some(out[j]@),
        decreases list.len() - i,
    {
        assert(views(list@)[i as int] == list[i as int]@);
        match resolve_value_type(&list[i], table) {
            Ok(v) => out.push(v),
            Err(e) => {
                return Err(e);
            },
        }
        i += 1;
    }
    assert(views(out@) =~= views(list@).map_values(
        |v: ValueTypeView| link_value_type(v, table.deep_view())->0,
    ));
    Ok(out)
}

fn resolve_comments(list: &Vec<i64>, table: &Vec<String>) -> (r: Result<Vec<String>, RockError>)
    ensures
        r is Ok <==> forall|i: int|
            0 <= i < list.len() ==> text_at(table.deep_view(), #[trigger] list[i]) is Some,
        r matches Ok(out) ==> out.deep_view() == list@.map_values(
            |i: i64| text_at(table.deep_view(), i)->0,
        ),
        r matches Err(e) ==> e.kind_of() == ErrorKind::ValidationFailed && e.reason_text()
            == string_fault(),
{
    let mut out: Vec<String> = Vec::new();
    let mut i: usize = 0;
    while i < list.len()
        invariant
            i <= list.len(),
            out.len() == i,
            forall|j: int|
                0 <= j < i ==> text_at(table.deep_view(), #[trigger] list[j]) == Some(out[j]@),
        decreases list.len() - i,
    {
        match text_of(table, list[i]) {
            Ok(s) => out.push(s),
            Err(e) => {
                return Err(e);
            },
        }
        i += 1;
    }
    assert(out.deep_view() =~= list@.map_values(|i: i64| text_at(table.deep_view(), i)->0));
    Ok(out)
}

/// The ids of a table of mappings.
fn list_mapping_ids(list: &Vec<Mapping>) -> (r: Vec<u64>)
    ensures
        r@ == mapping_ids(views(list@)),
{
    let mut out: Vec<u64> = Vec::new();
    let mut i: usize = 0;
    while i < list.len()
        invariant
            i <= list.len(),
            out.len() == i,
            forall|j: int| 0 <= j < i ==> out[j] == list[j].id,
        decreases list.len() - i,
    {
        out.push(list[i].id);
        i += 1;
    }
    assert(out@ =~= mapping_ids(views(list@)));
    out
}

/// The ids of a table of functions.
fn list_function_ids(list: &Vec<Function>) -> (r: Vec<u64>)
    ensures
        r@ == function_ids(views(list@)),
{
    let mut out: Vec<u64> = Vec::new();
    let mut i: usize = 0;
    while i < list.len()
        invariant
            i <= list.len(),
            out.len() == i,
            forall|j: int| 0 <= j < i ==> out[j] == list[j].id,
        decreases list.len() - i,
    {
        out.push(list[i].id);
        i += 1;
    }
    assert(out@ =~= function_ids(views(list@)));
    out
}

/// The ids of a table of locations.
pub fn list_location_ids(list: &Vec<Location>) -> (r: Vec<u64>)
    ensures
        r@ == location_ids(views(list@)),
{
    let mut out: Vec<u64> = Vec::new();
    let mut i: usize = 0;
    while i < list.len()
        invariant
            i <= list.len(),
            out.len() == i,
            forall|j: int| 0 <= j < i ==> out[j] == list[j].id,
        decreases list.len() - i,
    {
        out.push(list[i].id);
        i += 1;
    }
    assert(out@ =~= location_ids(views(list@)));
    out
}

fn resolve_line(ln: &Line, functions: &Vec<Function>, index: &IdIndex) -> (r: Result<
    Line,
    RockError,
>)
    requires
        forall|id: u64| index.find(id) == last_position(function_ids(views(functions@)), id),
    ensures
        match r {
            Ok(out) => link_line(ln@, views(functions@)) == Some(out@),
            Err(e) => link_line(ln@, views(functions@)).is_none() && e.kind_of()
                == ErrorKind::ValidationFailed && e.reason_text() == frame_fault(),
        },
{
    if ln.function_index == 0 {
        return Ok(ln.clone());
    }
    proof {
        lemma_last_position(function_ids(views(functions@)), ln.function_index);
        assert(index.find(ln.function_index) == last_position(
            function_ids(views(functions@)),
            ln.function_index,
        ));
    }
    match index.get(ln.function_index) {
        Some(p) => {
            assert(views(functions@)[p as int] == functions[p as int]@);
            Ok(
                Line {
                    line: ln.line,
                    function_index: ln.function_index,
                    function: functions[p].clone(),
                },
            )
        },
        None => Err(unlinked("frame refers to a function that is not in the profile")),
    }
}

fn resolve_location(
    l: &Location,
    mappings: &Vec<Mapping>,
    mapping_index: &IdIndex,
    functions: &Vec<Function>,
    function_index: &IdIndex,
) -> (r: Result<Location, RockError>)
    requires
        forall|id: u64| mapping_index.find(id) == last_position(mapping_ids(views(mappings@)), id),
        forall|id: u64|
            function_index.find(id) == last_position(function_ids(views(functions@)), id),
    ensures
        match r {
            Ok(out) => link_location(l@, views(mappings@), views(functions@)) == Some(out@),
            Err(e) => link_location(l@, views(mappings@), views(functions@)).is_none()
                && e.kind_of() == ErrorKind::ValidationFailed && e.reason_text()
                == frame_fault(),
        },
{
    let mut lines: Vec<Line> = Vec::new();
    let mut i: usize = 0;
    while i < l.line.len()
        invariant
            i <= l.line.len(),
            lines.len() == i,
            forall|id: u64|
                function_index.find(id) == last_position(function_ids(views(functions@)), id),
            forall|j: int|
                0 <= j < i ==> link_line(#[trigger] l@.line[j], views(functions@)) == Some(
                    lines[j]@,
                ),
        decreases l.line.len() - i,
    {
        assert(l@.line[i as int] == l.line[i as int]@);
        match resolve_line(&l.line[i], functions, function_index) {
            Ok(ln) => lines.push(ln),
            Err(e) => {
                return Err(e);
            },
        }
        i += 1;
    }
    assert(views(lines@) =~= linked_lines(l@.line, views(functions@)));
    proof {
        lemma_last_position(mapping_ids(views(mappings@)), l.mapping_index);
        assert(mapping_index.find(l.mapping_index) == last_position(
            mapping_ids(views(mappings@)),
            l.mapping_index,
        ));
    }
    let mapping = match mapping_index.get(l.mapping_index) {
        Some(p) => {
            assert(views(mappings@)[p as int] == mappings[p as int]@);
            Some(mappings[p].clone())
        },
        None => None,
    };
    Ok(
        Location {
            id: l.id,
            mapping_index: l.mapping_index,
            address: l.address,
            line: lines,
            is_folder: l.is_folder,
            mapping,
        },
    )
}

fn resolve_locations(
    list: &Vec<Location>,
    mappings: &Vec<Mapping>,
    functions: &Vec<Function>,
) -> (r: Result<Vec<Location>, RockError>)
    ensures
        r is Ok <==> forall|i: int|
            0 <= i < list.len() ==> link_location(
                #[trigger] views(list@)[i],
                views(mappings@),
                views(functions@),
            ) is Some,
        r matches Ok(out) ==> views(out@) == views(list@).map_values(
            |l: LocationView| link_location(l, views(mappings@), views(functions@))->0,
        ),
        r matches Err(e) ==> e.kind_of() == ErrorKind::ValidationFailed && e.reason_text()
            == frame_fault(),
{
    let mapping_index = IdIndex::build(&list_mapping_ids(mappings));
    let function_index = IdIndex::build(&list_function_ids(functions));
    let mut out: Vec<Location> = Vec::new();
    let mut i: usize = 0;
    while i < list.len()
        invariant
            i <= list.len(),
            out.len() == i,
            forall|id: u64|
                mapping_index.find(id) == last_position(mapping_ids(views(mappings@)), id),
            forall|id: u64|
                function_index.find(id) == last_position(function_ids(views(functions@)), id),
            forall|j: int|
                0 <= j < i ==> link_location(
                    #[trigger] views(list@)[j],
                    views(mappings@),
                    views(functions@),
                ) == Some(out[j]@),
        decreases list.len() - i,
    {
        assert(views(list@)[i as int] == list[i as int]@);
        match resolve_location(&list[i], mappings, &mapping_index, functions, &function_index) {
            Ok(l) => out.push(l),
            Err(e) => {
                return Err(e);
            },
        }
        i += 1;
    }
    assert(views(out@) =~= views(list@).map_values(
        |l: LocationView| link_location(l, views(mappings@), views(functions@))->0,
    ));
    Ok(out)
}

/// A copy of a list of texts.
pub fn clone_texts(list: &Vec<String>) -> (r: Vec<String>)
    ensures
        r.deep_view() == list.deep_view(),
{
    let mut out: Vec<String> = Vec::new();
    let mut i: usize = 0;
    while i < list.len()
        invariant
            i <= list.len(),
            out.len() == i,
            forall|j: int| 0 <= j < i ==> out[j]@ == list[j]@,
        decreases list.len() - i,
    {
        out.push(list[i].clone());
        i += 1;
    }
    assert(out.deep_view() =~= list.deep_view());
    out
}

/// Brings a list of units to `n` units by empty units at its end.
fn pad_texts(list: &mut Vec<String>, n: usize)
    ensures
        final(list).deep_view() == pad_units(old(list).deep_view(), n as nat),
{
    let ghost start = list.deep_view();
    assert(list.deep_view() =~= start + Seq::new(0, |i: int| Seq::<char>::empty()));
    while list.len() < n
        invariant
            list.len() >= start.len(),
            list.len() <= n || list.len() == start.len(),
            list.deep_view() == start + Seq::new(
                (list.len() - start.len()) as nat,
                |i: int| Seq::<char>::empty(),
            ),
        decreases n - list.len(),
    {
        let ghost before = list.deep_view();
        list.push(String::new());
        assert(list.deep_view() =~= before.push(Seq::<char>::empty()));
        assert(list.deep_view() =~= start + Seq::new(
            (list.len() - start.len()) as nat,
            |i: int| Seq::<char>::empty(),
        ));
    }
    assert(list.deep_view() =~= pad_units(start, n as nat));
}

/// The number of values under a key.
fn count_of(nums: &KeyedList<Vec<i64>>, key: &str) -> (n: usize)
    ensures
        n == count_under(nums.model(), key@),
{
    match nums.get(key) {
        Some(list) => {
            assert(list.deep_view().len() == list.len());
            list.len()
        },
        None => 0,
    }
}

/// The three label maps of the labels of a sample.
fn resolve_labels(labels: &Vec<Label>, table: &Vec<String>) -> (r: Result<
    (KeyedList<Vec<String>>, KeyedList<Vec<i64>>, KeyedList<Vec<String>>),
    RockError,
>)
    ensures
        r is Ok <==> labels_linkable(labels@, table.deep_view()),
        r matches Ok(maps) ==> {
            let st = labels_state(labels@, table.deep_view());
            &&& maps.0.model() == st.text
            &&& maps.1.model() == st.nums
            &&& maps.2.model() == settle_units(st.units, st.nums)
        },
        r matches Err(e) ==> e.kind_of() == ErrorKind::ValidationFailed && e.reason_text()
            == string_fault(),
{
    let mut text: KeyedList<Vec<String>> = KeyedList::new();
    let mut nums: KeyedList<Vec<i64>> = KeyedList::new();
    let mut units: KeyedList<Vec<String>> = KeyedList::new();
    let ghost t = table.deep_view();
    let mut i: usize = 0;
    assert(labels@.take(0) =~= Seq::<Label>::empty());
    while i < labels.len()
        invariant
            i <= labels.len(),
            t == table.deep_view(),
            forall|j: int| 0 <= j < i ==> label_linkable(#[trigger] labels[j], t),
            (LabelMaps { text: text.model(), nums: nums.model(), units: units.model() })
                == labels_state(labels@.take(i as int), t),
        decreases labels.len() - i,
    {
        let lab = labels[i];
        let ghost before = labels_state(labels@.take(i as int), t);
        proof {
            assert(labels@.take(i + 1).drop_last() =~= labels@.take(i as int));
            assert(labels@.take(i + 1).last() == lab);
        }
        let key = text_of(table, lab.key_index)?;
        if lab.str_index != 0 {
            let value = text_of(table, lab.str_index)?;
            text.append(key.as_str(), value);
        } else if lab.num_index != 0 {
            if lab.num_unit_index != 0 {
                let unit = text_of(table, lab.num_unit_index)?;
                let n = count_of(&nums, key.as_str());
                let mut list = match units.get(key.as_str()) {
                    Some(l) => clone_texts(l),
                    None => Vec::new(),
                };
                assert(list.deep_view() =~= list_under(before.units, key@));
                pad_texts(&mut list, n);
                let ghost padded = list.deep_view();
                list.push(unit);
                assert(list.deep_view() =~= padded.push(unit@));
                units.insert(key.clone(), list);
            }
            nums.append(key.as_str(), lab.num_index);
        }
        i += 1;
    }
    assert(labels@.take(i as int) =~= labels@);
    let ghost st = labels_state(labels@, t);
    let mut k: usize = 0;
    while k < units.len()
        invariant
            k <= units.model().len(),
            nums.model() == st.nums,
            units.model().len() == st.units.len(),
            forall|j: int|
                0 <= j < k ==> #[trigger] units.model()[j] == (
                    st.units[j].0,
                    pad_units(st.units[j].1, count_under(st.nums, st.units[j].0)),
                ),
            forall|j: int| k <= j < units.model().len() ==> #[trigger] units.model()[j] == st.units[j],
        decreases units.model().len() - k,
    {
        let n = count_of(&nums, units.key_at(k).as_str());
        let mut list = clone_texts(units.value_at(k));
        pad_texts(&mut list, n);
        units.set_value_at(k, list);
        k += 1;
    }
    assert(units.model() =~= settle_units(st.units, st.nums));
    Ok((text, nums, units))
}

fn resolve_sample(s: &Sample, table: &Vec<String>, locations: &Vec<Location>, index: &IdIndex) -> (r:
    Result<Sample, RockError>)
    requires
        forall|id: u64| index.find(id) == last_position(location_ids(views(locations@)), id),
    ensures
        match r {
            Ok(out) => link_sample(s@, table.deep_view(), views(locations@)) == Some(out@),
            Err(e) => link_sample(s@, table.deep_view(), views(locations@)).is_none()
                && e.kind_of() == ErrorKind::ValidationFailed && Some(e.reason_text())
                == sample_link_fault(s@, table.deep_view(), views(locations@)),
        },
{
    let (label, num_label, num_unit_label) = resolve_labels(&s.label_index, table)?;
    let mut stack: Vec<Location> = Vec::new();
    let mut i: usize = 0;
    while i < s.location_index.len()
        invariant
            i <= s.location_index.len(),
            stack.len() == i,
            labels_linkable(s.label_index@, table.deep_view()),
            forall|id: u64| index.find(id) == last_position(location_ids(views(locations@)), id),
            forall|j: int|
                0 <= j < i ==> find_by_id(
                    location_ids(views(locations@)),
                    views(locations@),
                    #[trigger] s.location_index[j],
                ) == Some(stack[j]@),
        decreases s.location_index.len() - i,
    {
        let id = s.location_index[i];
        proof {
            lemma_last_position(location_ids(views(locations@)), id);
            assert(index.find(id) == last_position(location_ids(views(locations@)), id));
        }
        match index.get(id) {
            Some(p) => {
                assert(views(locations@)[p as int] == locations[p as int]@);
                stack.push(locations[p].clone());
            },
            None => {
                return Err(unlinked("sample refers to a location that is not in the profile"));
            },
        }
        i += 1;
    }
    assert(views(stack@) =~= linked_stack(s.location_index@, views(locations@)));
    let value = s.value.clone();
    let location_index = s.location_index.clone();
    let label_index = s.label_index.clone();
    assert(value@ =~= s.value@);
    assert(location_index@ =~= s.location_index@);
    assert(label_index@ =~= s.label_index@);
    Ok(
        Sample {
            location: stack,
            value,
            label,
            num_label,
            num_unit_label,
            location_index,
            label_index,
        },
    )
}

fn resolve_samples(list: &Vec<Sample>, table: &Vec<String>, locations: &Vec<Location>) -> (r:
    Result<Vec<Sample>, RockError>)
    ensures
        r is Ok <==> forall|i: int|
            0 <= i < list.len() ==> link_sample(
                #[trigger] views(list@)[i],
                table.deep_view(),
                views(locations@),
            ) is Some,
        r matches Ok(out) ==> views(out@) == views(list@).map_values(
            |s: SampleView| link_sample(s, table.deep_view(), views(locations@))->0,
        ),
        r matches Err(e) ==> e.kind_of() == ErrorKind::ValidationFailed && Some(e.reason_text())
            == first_fault(
            views(list@).map_values(
                |s: SampleView| sample_link_fault(s, table.deep_view(), views(locations@)),
            ),
        ),
{
    let index = IdIndex::build(&list_location_ids(locations));
    let ghost faults = views(list@).map_values(
        |s: SampleView| sample_link_fault(s, table.deep_view(), views(locations@)),
    );
    let mut out: Vec<Sample> = Vec::new();
    let mut i: usize = 0;
    assert(faults.skip(0) =~= faults);
    while i < list.len()
        invariant
            i <= list.len(),
            out.len() == i,
            faults == views(list@).map_values(
                |s: SampleView| sample_link_fault(s, table.deep_view(), views(locations@)),
            ),
            first_fault(faults) == first_fault(faults.skip(i as int)),
            forall|id: u64| index.find(id) == last_position(location_ids(views(locations@)), id),
            forall|j: int|
                0 <= j < i ==> link_sample(
                    #[trigger] views(list@)[j],
                    table.deep_view(),
                    views(locations@),
                ) == Some(out[j]@),
        decreases list.len() - i,
    {
        assert(views(list@)[i as int] == list[i as int]@);
        assert(faults.skip(i as int)[0] == sample_link_fault(
            list[i as int]@,
            table.deep_view(),
            views(locations@),
        ));
        assert(faults.skip(i as int).drop_first() =~= faults.skip(i + 1));
        match resolve_sample(&list[i], table, locations, &index) {
            Ok(s) => out.push(s),
            Err(e) => {
                return Err(e);
            },
        }
        i += 1;
    }
    assert(views(out@) =~= views(list@).map_values(
        |s: SampleView| link_sample(s, table.deep_view(), views(locations@))->0,
    ));
    Ok(out)
}

impl Profile {
    /// Links the profile: resolves the strings of mappings, functions and
    /// value types, the mapping of each location and the functions of its
    /// frames, the labels and the locations of each sample, and the
    /// strings of the profile itself. A profile that cannot be linked is
    /// left as it was.
    pub fn post_decode(&mut self) -> (r: Result<(), RockError>)
        ensures
            r is Ok <==> linkable(old(self)@),
            r is Ok <==> link_fault(old(self)@).is_none(),
            r is Ok ==> final(self)@ == linked(old(self)@),
            r matches Err(e) ==> e.kind_of() == ErrorKind::ValidationFailed
                && final(self)@ == old(self)@ && Some(e.reason_text()) == link_fault(
                old(self)@,
            ),
    {
        let mapping = resolve_mappings(&self.mapping, &self.string_table)?;
        let function = resolve_functions(&self.function, &self.string_table)?;
        let location = resolve_locations(&self.location, &mapping, &function)?;
        let sample_type = resolve_value_types(&self.sample_type, &self.string_table)?;
        let sample = resolve_samples(&self.sample, &self.string_table, &location)?;
        proof {
            let p = old(self)@;
            assert forall|i: int| 0 <= i < sample_link_faults(p).len() implies (
            #[trigger] sample_link_faults(p)[i]).is_none() by {
                assert(link_sample(p.sample[i], p.string_table, linked_locations(p)) is Some);
            }
            lemma_no_fault(sample_link_faults(p));
        }
        let period_type = match &self.period_type {
            Some(v) => Some(resolve_value_type(v, &self.string_table)?),
            None => None,
        };
        let drop_frames = text_of(&self.string_table, self.drop_frames_index)?;
        let keep_frames = text_of(&self.string_table, self.keep_frames_index)?;
        let comments = resolve_comments(&self.comment_index, &self.string_table)?;
        let default_sample_type = text_of(&self.string_table, self.default_sample_type_index)?;
        self.mapping = mapping;
        self.function = function;
        self.location = location;
        self.sample_type = sample_type;
        self.sample = sample;
        self.period_type = period_type;
        self.drop_frames = drop_frames;
        self.keep_frames = keep_frames;
        self.comments = comments;
        self.default_sample_type = default_sample_type;
        Ok(())
    }
}

} // verus!
