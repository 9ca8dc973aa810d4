//! The structural rules that a linked profile has to keep.

use crate::errors::{ErrorKind, RockError};
use crate::profile::function::{Function, FunctionView};
use crate::profile::index::{lemma_last_position, last_position, IdIndex};
use crate::profile::line::{Line, LineView};
use crate::profile::location::{Location, LocationView};
use crate::profile::mapping::{Mapping, MappingView};
use crate::profile::sample::{Sample, SampleView};
use crate::profile::{views, Profile, ProfileView};
use vstd::prelude::*;

verus! {

/// No id occurs twice.
pub open spec fn ids_distinct(ids: Seq<u64>) -> bool {
    forall|i: int, j: int| 0 <= i < j < ids.len() ==> ids[i] != ids[j]
}

/// The ids of a table of mappings.
pub open spec fn mapping_ids(table: Seq<MappingView>) -> Seq<u64> {
    table.map_values(|m: MappingView| m.id)
}

/// The ids of a table of functions.
pub open spec fn function_ids(table: Seq<FunctionView>) -> Seq<u64> {
    table.map_values(|f: FunctionView| f.id)
}

/// The ids of a table of locations.
pub open spec fn location_ids(table: Seq<LocationView>) -> Seq<u64> {
    table.map_values(|l: LocationView| l.id)
}

/// A sample is written to, has one value for each sample type, and each
/// of its locations is written to.
pub open spec fn sample_valid(s: SampleView, types: nat) -> bool {
    &&& s != SampleView::empty()
    &&& s.value.len() == types
    &&& forall|k: int| 0 <= k < s.location.len() ==> #[trigger] s.location[k] != LocationView::empty()
}

/// A mapping is written to and its id is not the reserved 0.
pub open spec fn mapping_valid(m: MappingView) -> bool {
    m != MappingView::empty() && m.id != 0
}

/// A function is written to and its id is not the reserved 0.
pub open spec fn function_valid(f: FunctionView) -> bool {
    f != FunctionView::empty() && f.id != 0
}

/// The function of a frame, where it has one, has an id other than 0 and
/// is the function that the table holds.
pub open spec fn line_valid(ln: LineView, functions: Seq<FunctionView>) -> bool {
    ln.function != FunctionView::empty() ==> ln.function.id != 0 && functions.contains(
        ln.function,
    )
}

/// A location is written to, its id is not the reserved 0, its mapping,
/// where it has one, has an id other than 0 and is the mapping that the table
/// holds, and each of its frames is valid.
pub open spec fn location_valid(
    l: LocationView,
    mappings: Seq<MappingView>,
    functions: Seq<FunctionView>,
) -> bool {
    &&& l != LocationView::empty()
    &&& l.id != 0
    &&& match l.mapping {
        Some(m) => m.id != 0 && mappings.contains(m),
        None => true,
    }
    &&& forall|k: int| 0 <= k < l.line.len() ==> line_valid(#[trigger] l.line[k], functions)
}

/// The structural rules of a linked profile.
pub open spec fn profile_valid(p: ProfileView) -> bool {
    &&& p.sample_type.len() > 0 || p.sample.len() > 0
    &&& forall|i: int|
        0 <= i < p.sample.len() ==> sample_valid(#[trigger] p.sample[i], p.sample_type.len())
    &&& forall|i: int| 0 <= i < p.mapping.len() ==> mapping_valid(#[trigger] p.mapping[i])
    &&& ids_distinct(mapping_ids(p.mapping))
    &&& forall|i: int| 0 <= i < p.function.len() ==> function_valid(#[trigger] p.function[i])
    &&& ids_distinct(function_ids(p.function))
    &&& forall|i: int|
        0 <= i < p.location.len() ==> location_valid(
            #[trigger] p.location[i],
            p.mapping,
            p.function,
        )
    &&& ids_distinct(location_ids(p.location))
}

/// The first rule that a sample breaks, in words.
pub open spec fn sample_fault(s: SampleView, types: nat) -> Option<Seq<char>> {
    if s == SampleView::empty() {
        Some("profile has default (uninitialized) sample"@)
    } else if s.value.len() != types {
        Some("mismatch: sample values vs. sample types"@)
    } else if exists|k: int|
        0 <= k < s.location.len() && #[trigger] s.location[k] == LocationView::empty() {
        Some("sample has default (uninitialized) location"@)
    } else {
        None
    }
}

/// The first rule that a mapping breaks, in words.
pub open spec fn mapping_fault(m: MappingView) -> Option<Seq<char>> {
    if m == MappingView::empty() {
        Some("profile has default (uninitialized) mapping"@)
    } else if m.id == 0 {
        Some("found mapping with reserved ID=0"@)
    } else {
        None
    }
}

/// The first rule that a function breaks, in words.
pub open spec fn function_fault(f: FunctionView) -> Option<Seq<char>> {
    if f == FunctionView::empty() {
        Some("profile has default (uninitialized) function"@)
    } else if f.id == 0 {
        Some("found function with reserved ID=0"@)
    } else {
        None
    }
}

/// The first rule that a location breaks, in words.
pub open spec fn location_fault(
    l: LocationView,
    mappings: Seq<MappingView>,
    functions: Seq<FunctionView>,
) -> Option<Seq<char>> {
    if l == LocationView::empty() {
        Some("profile has default (uninitialized) location"@)
    } else if l.id == 0 {
        Some("found location with reserved ID=0"@)
    } else if l.mapping matches Some(m) && !(m.id != 0 && mappings.contains(m)) {
        Some("inconsistent mapping"@)
    } else if exists|k: int| 0 <= k < l.line.len() && !line_valid(#[trigger] l.line[k], functions) {
        Some("inconsistent function"@)
    } else {
        None
    }
}

/// The first of a list of faults.
pub open spec fn first_fault(faults: Seq<Option<Seq<char>>>) -> Option<Seq<char>>
    decreases faults.len(),
{
    if faults.len() == 0 {
        None
    } else {
        match faults[0] {
            Some(reason) => Some(reason),
            None => first_fault(faults.drop_first()),
        }
    }
}

/// The fault of a table: the first fault of its entries, or, where they
/// have none, that an id occurs twice.
pub open spec fn table_fault(
    faults: Seq<Option<Seq<char>>>,
    ids: Seq<u64>,
    twice: Seq<char>,
) -> Option<Seq<char>> {
    match first_fault(faults) {
        Some(reason) => Some(reason),
        None => if ids_distinct(ids) {
            None
        } else {
            Some(twice)
        },
    }
}

/// The faults of the samples, each by itself.
pub open spec fn sample_faults(p: ProfileView) -> Seq<Option<Seq<char>>> {
    p.sample.map_values(|s: SampleView| sample_fault(s, p.sample_type.len()))
}

/// The faults of the locations, each by itself.
pub open spec fn location_faults(p: ProfileView) -> Seq<Option<Seq<char>>> {
    p.location.map_values(|l: LocationView| location_fault(l, p.mapping, p.function))
}

/// The first rule that a profile breaks, in words; none where it keeps
/// them all. The rules are gone through in this order: that there are
/// sample types or samples; the samples, one after the other; the mappings
/// and then their ids; the functions and then their ids; the locations and
/// then their ids.
pub open spec fn validation_fault(p: ProfileView) -> Option<Seq<char>> {
    if p.sample_type.len() == 0 && p.sample.len() == 0 {
        Some("missing sample type information"@)
    } else if first_fault(sample_faults(p)) is Some {
        first_fault(sample_faults(p))
    } else if table_fault(
        p.mapping.map_values(|m: MappingView| mapping_fault(m)),
        mapping_ids(p.mapping),
        "multiple mappings with same id"@,
    ) is Some {
        table_fault(
            p.mapping.map_values(|m: MappingView| mapping_fault(m)),
            mapping_ids(p.mapping),
            "multiple mappings with same id"@,
        )
    } else if table_fault(
        p.function.map_values(|f: FunctionView| function_fault(f)),
        function_ids(p.function),
        "multiple functions with same id"@,
    ) is Some {
        table_fault(
            p.function.map_values(|f: FunctionView| function_fault(f)),
            function_ids(p.function),
            "multiple functions with same id"@,
        )
    } else {
        table_fault(location_faults(p), location_ids(p.location), "multiple locations with same id"@)
    }
}

/// The error of a broken rule.
fn broken(reason: &str) -> (e: RockError)
    ensures
        e.kind_of() == ErrorKind::ValidationFailed,
        e.reason_text() == reason@,
{
    RockError::new(ErrorKind::ValidationFailed, reason)
}

/// The table from each id to its place, where no id occurs twice;
/// otherwise an id that does.
fn distinct_index(ids: &Vec<u64>) -> (r: Result<IdIndex, u64>)
    ensures
        r is Ok <==> ids_distinct(ids@),
        r matches Ok(index) ==> forall|id: u64| index.find(id) == last_position(ids@, id),
{
    let mut index = IdIndex::new();
    let mut i: usize = 0;
    assert(ids@.take(0) =~= Seq::<u64>::empty());
    while i < ids.len()
        invariant
            i <= ids.len(),
            forall|id: u64| index.find(id) == last_position(ids@.take(i as int), id),
            ids_distinct(ids@.take(i as int)),
        decreases ids.len() - i,
    {
        let id = ids[i];
        proof {
            lemma_last_position(ids@.take(i as int), id);
            assert(index.find(id) == last_position(ids@.take(i as int), id));
        }
        if index.get(id).is_some() {
            proof {
                let p = last_position(ids@.take(i as int), id)->0;
                assert(ids@.take(i as int)[p] == ids@[p]);
                assert(ids@[p] == ids@[i as int]);
            }
            return Err(id);
        }
        let ghost before = index;
        index.insert(id, i);
        i += 1;
        proof {
            let now = ids@.take(i as int);
            assert(now.drop_last() =~= ids@.take(i - 1));
            assert(now.last() == id);
            assert forall|other: u64| index.find(other) == last_position(now, other) by {
                if other != id {
                    assert(index.find(other) == before.find(other));
                }
            }
            assert forall|a: int, b: int| 0 <= a < b < now.len() implies now[a] != now[b] by {
                if b < i - 1 {
                    assert(ids@.take(i - 1)[a] != ids@.take(i - 1)[b]);
                } else {
                    assert(ids@.take(i - 1)[a] == now[a]);
                }
            }
        }
    }
    assert(ids@.take(i as int) =~= ids@);
    Ok(index)
}

/// Checks every sample.
fn check_samples(samples: &Vec<Sample>, types: usize) -> (r: Result<(), RockError>)
    ensures
        r is Ok <==> forall|i: int|
            0 <= i < samples.len() ==> sample_valid(#[trigger] views(samples@)[i], types as nat),
        match first_fault(
            views(samples@).map_values(|s: SampleView| sample_fault(s, types as nat)),
        ) {
            Some(reason) => r matches Err(e) && e.kind_of() == ErrorKind::ValidationFailed
                && e.reason_text() == reason,
            None => r is Ok,
        },
{
    let ghost faults = views(samples@).map_values(|s: SampleView| sample_fault(s, types as nat));
    let mut i: usize = 0;
    assert(faults.skip(0) =~= faults);
    while i < samples.len()
        invariant
            i <= samples.len(),
            faults == views(samples@).map_values(|s: SampleView| sample_fault(s, types as nat)),
            first_fault(faults) == first_fault(faults.skip(i as int)),
            forall|j: int| 0 <= j < i ==> sample_valid(#[trigger] views(samples@)[j], types as nat),
        decreases samples.len() - i,
    {
        let s = &samples[i];
        assert(views(samples@)[i as int] == s@);
        assert(faults.skip(i as int)[0] == sample_fault(s@, types as nat));
        assert(faults.skip(i as int).drop_first() =~= faults.skip(i + 1));
        if s.is_default() {
            return Err(broken("profile has default (uninitialized) sample"));
        }
        if s.value.len() != types {
            return Err(broken("mismatch: sample values vs. sample types"));
        }
        let mut k: usize = 0;
        while k < s.location.len()
            invariant
                k <= s.location.len(),
                i < samples.len(),
                views(samples@)[i as int] == s@,
                faults == views(samples@).map_values(
                    |s: SampleView| sample_fault(s, types as nat),
                ),
                faults.skip(i as int)[0] == sample_fault(s@, types as nat),
                first_fault(faults) == first_fault(faults.skip(i as int)),
                s@ != SampleView::empty(),
                s@.value.len() == types,
                forall|j: int| 0 <= j < k ==> #[trigger] s@.location[j] != LocationView::empty(),
            decreases s.location.len() - k,
        {
            assert(s@.location[k as int] == s.location[k as int]@);
            if s.location[k].is_default() {
                assert(s@.location[k as int] == LocationView::empty());
                return Err(broken("sample has default (uninitialized) location"));
            }
            k += 1;
        }
        i += 1;
    }
    Ok(())
}

/// Checks the table of mappings and makes the table of its ids.
fn check_mappings(table: &Vec<Mapping>) -> (r: Result<IdIndex, RockError>)
    ensures
        r is Ok <==> (forall|i: int|
            0 <= i < table.len() ==> mapping_valid(#[trigger] views(table@)[i])) && ids_distinct(
            mapping_ids(views(table@)),
        ),
        r matches Ok(index) ==> forall|id: u64|
            index.find(id) == last_position(mapping_ids(views(table@)), id),
        match table_fault(
            views(table@).map_values(|x: MappingView| mapping_fault(x)),
            mapping_ids(views(table@)),
            "multiple mappings with same id"@,
        ) {
            Some(reason) => r matches Err(e) && e.kind_of() == ErrorKind::ValidationFailed
                && e.reason_text() == reason,
            None => r is Ok,
        },
{
    let ghost faults = views(table@).map_values(|x: MappingView| mapping_fault(x));
    let mut ids: Vec<u64> = Vec::new();
    let mut i: usize = 0;
    assert(faults.skip(0) =~= faults);
    while i < table.len()
        invariant
            i <= table.len(),
            ids.len() == i,
            faults == views(table@).map_values(|x: MappingView| mapping_fault(x)),
            first_fault(faults) == first_fault(faults.skip(i as int)),
            forall|j: int| 0 <= j < i ==> mapping_valid(#[trigger] views(table@)[j]),
            forall|j: int| 0 <= j < i ==> ids[j] == table[j].id,
        decreases table.len() - i,
    {
        assert(views(table@)[i as int] == table[i as int]@);
        assert(faults.skip(i as int)[0] == mapping_fault(table[i as int]@));
        assert(faults.skip(i as int).drop_first() =~= faults.skip(i + 1));
        if table[i].is_default() {
            return Err(broken("profile has default (uninitialized) mapping"));
        }
        if table[i].id == 0 {
            return Err(broken("found mapping with reserved ID=0"));
        }
        ids.push(table[i].id);
        i += 1;
    }
    assert(ids@ =~= mapping_ids(views(table@)));
    match distinct_index(&ids) {
        Ok(index) => Ok(index),
        Err(_) => Err(broken("multiple mappings with same id")),
    }
}

/// Checks the table of functions and makes the table of its ids.
fn check_functions(table: &Vec<Function>) -> (r: Result<IdIndex, RockError>)
    ensures
        r is Ok <==> (forall|i: int|
            0 <= i < table.len() ==> function_valid(#[trigger] views(table@)[i])) && ids_distinct(
            function_ids(views(table@)),
        ),
        r matches Ok(index) ==> forall|id: u64|
            index.find(id) == last_position(function_ids(views(table@)), id),
        match table_fault(
            views(table@).map_values(|x: FunctionView| function_fault(x)),
            function_ids(views(table@)),
            "multiple functions with same id"@,
        ) {
            Some(reason) => r matches Err(e) && e.kind_of() == ErrorKind::ValidationFailed
                && e.reason_text() == reason,
            None => r is Ok,
        },
{
    let ghost faults = views(table@).map_values(|x: FunctionView| function_fault(x));
    let mut ids: Vec<u64> = Vec::new();
    let mut i: usize = 0;
    assert(faults.skip(0) =~= faults);
    while i < table.len()
        invariant
            i <= table.len(),
            ids.len() == i,
            faults == views(table@).map_values(|x: FunctionView| function_fault(x)),
            first_fault(faults) == first_fault(faults.skip(i as int)),
            forall|j: int| 0 <= j < i ==> function_valid(#[trigger] views(table@)[j]),
            forall|j: int| 0 <= j < i ==> ids[j] == table[j].id,
        decreases table.len() - i,
    {
        assert(views(table@)[i as int] == table[i as int]@);
        assert(faults.skip(i as int)[0] == function_fault(table[i as int]@));
        assert(faults.skip(i as int).drop_first() =~= faults.skip(i + 1));
        if table[i].is_default() {
            return Err(broken("profile has default (uninitialized) function"));
        }
        if table[i].id == 0 {
            return Err(broken("found function with reserved ID=0"));
        }
        ids.push(table[i].id);
        i += 1;
    }
    assert(ids@ =~= function_ids(views(table@)));
    match distinct_index(&ids) {
        Ok(index) => Ok(index),
        Err(_) => Err(broken("multiple functions with same id")),
    }
}

/// In a table without a repeated id, the entry found under the id of `m`
/// is `m` exactly if the table holds `m`.
proof fn lemma_mapping_registered(table: Seq<MappingView>, m: MappingView)
    requires
        ids_distinct(mapping_ids(table)),
    ensures
        table.contains(m) <==> (last_position(mapping_ids(table), m.id) matches Some(p)
            && table[p] == m),
{
    let ids = mapping_ids(table);
    lemma_last_position(ids, m.id);
    if table.contains(m) {
        let j = choose|j: int| 0 <= j < table.len() && table[j] == m;
        assert(ids[j] == m.id);
        let p = last_position(ids, m.id)->0;
        if p != j {
            assert(ids[p] == ids[j]);
        }
    }
}

/// In a table without a repeated id, the entry found under the id of `f`
/// is `f` exactly if the table holds `f`.
proof fn lemma_function_registered(table: Seq<FunctionView>, f: FunctionView)
    requires
        ids_distinct(function_ids(table)),
    ensures
        table.contains(f) <==> (last_position(function_ids(table), f.id) matches Some(p)
            && table[p] == f),
{
    let ids = function_ids(table);
    lemma_last_position(ids, f.id);
    if table.contains(f) {
        let j = choose|j: int| 0 <= j < table.len() && table[j] == f;
        assert(ids[j] == f.id);
        let p = last_position(ids, f.id)->0;
        if p != j {
            assert(ids[p] == ids[j]);
        }
    }
}

/// Checks one frame against the table of functions.
fn check_line(ln: &Line, functions: &Vec<Function>, function_index: &IdIndex) -> (ok: bool)
    requires
        ids_distinct(function_ids(views(functions@))),
        forall|id: u64|
            function_index.find(id) == last_position(function_ids(views(functions@)), id),
    ensures
        ok == line_valid(ln@, views(functions@)),
{
    if ln.function.is_default() {
        return true;
    }
    proof {
        lemma_function_registered(views(functions@), ln.function@);
        lemma_last_position(function_ids(views(functions@)), ln.function.id);
        assert(function_index.find(ln.function.id) == last_position(
            function_ids(views(functions@)),
            ln.function.id,
        ));
    }
    if ln.function.id == 0 {
        return false;
    }
    match function_index.get(ln.function.id) {
        Some(p) => {
            assert(views(functions@)[p as int] == functions[p as int]@);
            functions[p].same(&ln.function)
        },
        None => false,
    }
}

/// Checks one location against the tables of mappings and functions.
fn check_location(
    l: &Location,
    mappings: &Vec<Mapping>,
    mapping_index: &IdIndex,
    functions: &Vec<Function>,
    function_index: &IdIndex,
) -> (r: Result<(), RockError>)
    requires
        ids_distinct(mapping_ids(views(mappings@))),
        forall|id: u64| mapping_index.find(id) == last_position(mapping_ids(views(mappings@)), id),
        ids_distinct(function_ids(views(functions@))),
        forall|id: u64|
            function_index.find(id) == last_position(function_ids(views(functions@)), id),
    ensures
        r is Ok <==> location_valid(l@, views(mappings@), views(functions@)),
        match location_fault(l@, views(mappings@), views(functions@)) {
            Some(reason) => r matches Err(e) && e.kind_of() == ErrorKind::ValidationFailed
                && e.reason_text() == reason,
            None => r is Ok,
        },
{
    if l.is_default() {
        return Err(broken("profile has default (uninitialized) location"));
    }
    if l.id == 0 {
        return Err(broken("found location with reserved ID=0"));
    }
    match &l.mapping {
        Some(m) => {
            proof {
                lemma_mapping_registered(views(mappings@), m@);
                lemma_last_position(mapping_ids(views(mappings@)), m.id);
                assert(mapping_index.find(m.id) == last_position(
                    mapping_ids(views(mappings@)),
                    m.id,
                ));
            }
            let registered = match mapping_index.get(m.id) {
                Some(p) => {
                    assert(views(mappings@)[p as int] == mappings[p as int]@);
                    mappings[p].same(m)
                },
                None => false,
            };
            if m.id == 0 || !registered {
                return Err(broken("inconsistent mapping"));
            }
        },
        None => {},
    }
    let mut k: usize = 0;
    while k < l.line.len()
        invariant
            k <= l.line.len(),
            l@ != LocationView::empty(),
            l.id != 0,
            l@.mapping matches Some(m) ==> m.id != 0 && views(mappings@).contains(m),
            ids_distinct(function_ids(views(functions@))),
            forall|id: u64|
                function_index.find(id) == last_position(function_ids(views(functions@)), id),
            forall|j: int| 0 <= j < k ==> line_valid(#[trigger] l@.line[j], views(functions@)),
        decreases l.line.len() - k,
    {
        assert(l@.line[k as int] == l.line[k as int]@);
        if !check_line(&l.line[k], functions, function_index) {
            assert(!line_valid(l@.line[k as int], views(functions@)));
            return Err(broken("inconsistent function"));
        }
        k += 1;
    }
    Ok(())
}

/// Checks the table of locations.
fn check_locations(
    table: &Vec<Location>,
    mappings: &Vec<Mapping>,
    mapping_index: &IdIndex,
    functions: &Vec<Function>,
    function_index: &IdIndex,
) -> (r: Result<(), RockError>)
    requires
        ids_distinct(mapping_ids(views(mappings@))),
        forall|id: u64| mapping_index.find(id) == last_position(mapping_ids(views(mappings@)), id),
        ids_distinct(function_ids(views(functions@))),
        forall|id: u64|
            function_index.find(id) == last_position(function_ids(views(functions@)), id),
    ensures
        r is Ok <==> (forall|i: int|
            0 <= i < table.len() ==> location_valid(
                #[trigger] views(table@)[i],
                views(mappings@),
                views(functions@),
            )) && ids_distinct(location_ids(views(table@))),
        match table_fault(
            views(table@).map_values(
                |l: LocationView| location_fault(l, views(mappings@), views(functions@)),
            ),
            location_ids(views(table@)),
            "multiple locations with same id"@,
        ) {
            Some(reason) => r matches Err(e) && e.kind_of() == ErrorKind::ValidationFailed
                && e.reason_text() == reason,
            None => r is Ok,
        },
{
    let ghost faults = views(table@).map_values(
        |l: LocationView| location_fault(l, views(mappings@), views(functions@)),
    );
    let mut ids: Vec<u64> = Vec::new();
    let mut i: usize = 0;
    assert(faults.skip(0) =~= faults);
    while i < table.len()
        invariant
            i <= table.len(),
            ids.len() == i,
            faults == views(table@).map_values(
                |l: LocationView| location_fault(l, views(mappings@), views(functions@)),
            ),
            first_fault(faults) == first_fault(faults.skip(i as int)),
            ids_distinct(mapping_ids(views(mappings@))),
            forall|id: u64|
                mapping_index.find(id) == last_position(mapping_ids(views(mappings@)), id),
            ids_distinct(function_ids(views(functions@))),
            forall|id: u64|
                function_index.find(id) == last_position(function_ids(views(functions@)), id),
            forall|j: int|
                0 <= j < i ==> location_valid(
                    #[trigger] views(table@)[j],
                    views(mappings@),
                    views(functions@),
                ),
            forall|j: int| 0 <= j < i ==> ids[j] == table[j].id,
        decreases table.len() - i,
    {
        assert(views(table@)[i as int] == table[i as int]@);
        assert(faults.skip(i as int)[0] == location_fault(
            table[i as int]@,
            views(mappings@),
            views(functions@),
        ));
        assert(faults.skip(i as int).drop_first() =~= faults.skip(i + 1));
        match check_location(&table[i], mappings, mapping_index, functions, function_index) {
            Ok(()) => {},
            Err(e) => {
                return Err(e);
            },
        }
        ids.push(table[i].id);
        i += 1;
    }
    assert(ids@ =~= location_ids(views(table@)));
    match distinct_index(&ids) {
        Ok(_) => Ok(()),
        Err(_) => Err(broken("multiple locations with same id")),
    }
}

impl Profile {
    /// Checks the structural rules of a linked profile: it succeeds on
    /// the profiles that keep every rule, and fails with
    /// `ValidationFailed` on the others; the reason names the first rule
    /// that is broken.
    pub fn validate(&self) -> (r: Result<(), RockError>)
        ensures
            r is Ok <==> profile_valid(self@),
            match validation_fault(self@) {
                Some(reason) => r matches Err(e) && e.kind_of() == ErrorKind::ValidationFailed
                    && e.reason_text() == reason,
                None => r is Ok,
            },
    {
        assert(self@.sample_type.len() == self.sample_type.len());
        assert(self@.sample.len() == self.sample.len());
        assert(self@.mapping.len() == self.mapping.len());
        assert(self@.function.len() == self.function.len());
        assert(self@.location.len() == self.location.len());
        if self.sample_type.len() == 0 && self.sample.len() == 0 {
            return Err(broken("missing sample type information"));
        }
        check_samples(&self.sample, self.sample_type.len())?;
        let mapping_index = check_mappings(&self.mapping)?;
        let function_index = check_functions(&self.function)?;
        check_locations(
            &self.location,
            &self.mapping,
            &mapping_index,
            &self.function,
            &function_index,
        )
    }
}

} // verus!
