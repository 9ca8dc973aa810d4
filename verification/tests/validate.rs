use rock::errors::ErrorKind;
use rock::profile::function::Function;
use rock::profile::line::Line;
use rock::profile::location::Location;
use rock::profile::mapping::Mapping;
use rock::profile::sample::Sample;
use rock::profile::value_type::ValueType;
use rock::profile::Profile;

fn mapping(id: u64) -> Mapping {
    let mut m = Mapping::default();
    m.id = id;
    m.filename = String::from("bin");
    m
}

fn function(id: u64) -> Function {
    let mut f = Function::default();
    f.id = id;
    f.name = String::from("f");
    f
}

fn location(id: u64) -> Location {
    let mut l = Location::default();
    l.id = id;
    l
}

fn valid_profile() -> Profile {
    let mut p = Profile::default();
    p.sample_type.push(ValueType::default());
    p.mapping.push(mapping(1));
    p.function.push(function(1));
    let mut l = location(1);
    l.mapping = Some(mapping(1));
    l.line.push(Line { line: 3, function_index: 1, function: function(1) });
    p.location.push(l.clone());
    let mut s = Sample::default();
    s.value.push(7);
    s.location.push(l);
    p.sample.push(s);
    p
}

fn reason_of(p: &Profile) -> String {
    let err = p.validate().unwrap_err();
    assert_eq!(err.kind(), ErrorKind::ValidationFailed);
    err.reason().to_string()
}

#[test]
fn valid_profile_passes() {
    assert_eq!(valid_profile().validate(), Ok(()));
}

#[test]
fn profile_without_types_and_samples_fails() {
    assert_eq!(reason_of(&Profile::default()), "missing sample type information");
}

#[test]
fn default_sample_fails() {
    let mut p = valid_profile();
    p.sample.push(Sample::default());
    assert_eq!(reason_of(&p), "profile has default (uninitialized) sample");
}

#[test]
fn sample_without_values_fails() {
    // a sample with zero values and one sample type
    let mut p = valid_profile();
    let mut s = Sample::default();
    s.location_index.push(1);
    p.sample.push(s);
    assert_eq!(reason_of(&p), "mismatch: sample values vs. sample types");
}

#[test]
fn sample_with_default_location_fails() {
    let mut p = valid_profile();
    p.sample[0].location.push(Location::default());
    assert_eq!(reason_of(&p), "sample has default (uninitialized) location");
}

#[test]
fn mapping_with_id_zero_fails() {
    let mut p = valid_profile();
    p.mapping.push(mapping(0));
    assert_eq!(reason_of(&p), "found mapping with reserved ID=0");
    let mut p = valid_profile();
    p.mapping.push(Mapping::default());
    assert_eq!(reason_of(&p), "profile has default (uninitialized) mapping");
}

#[test]
fn function_with_id_zero_fails() {
    let mut p = valid_profile();
    p.function.push(function(0));
    assert_eq!(reason_of(&p), "found function with reserved ID=0");
    let mut p = valid_profile();
    p.function.push(Function::default());
    assert_eq!(reason_of(&p), "profile has default (uninitialized) function");
}

#[test]
fn location_with_id_zero_fails() {
    let mut p = valid_profile();
    let mut l = location(0);
    l.address = 9;
    p.location.push(l);
    assert_eq!(reason_of(&p), "found location with reserved ID=0");
    let mut p = valid_profile();
    p.location.push(Location::default());
    assert_eq!(reason_of(&p), "profile has default (uninitialized) location");
}

#[test]
fn duplicate_ids_fail() {
    let mut p = valid_profile();
    p.mapping.push(mapping(1));
    assert_eq!(reason_of(&p), "multiple mappings with same id");
    let mut p = valid_profile();
    p.function.push(function(1));
    assert_eq!(reason_of(&p), "multiple functions with same id");
    let mut p = valid_profile();
    p.location.push(location(1));
    assert_eq!(reason_of(&p), "multiple locations with same id");
}

#[test]
fn inconsistent_mapping_fails() {
    let mut p = valid_profile();
    let mut l = location(2);
    let mut m = mapping(1);
    m.memory_start = 5;
    l.mapping = Some(m);
    p.location.push(l);
    assert_eq!(reason_of(&p), "inconsistent mapping");
    let mut p = valid_profile();
    let mut l = location(2);
    l.mapping = Some(mapping(7));
    p.location.push(l);
    assert_eq!(reason_of(&p), "inconsistent mapping");
}

#[test]
fn inconsistent_function_fails() {
    let mut p = valid_profile();
    let mut l = location(2);
    l.line.push(Line { line: 1, function_index: 5, function: function(5) });
    p.location.push(l);
    assert_eq!(reason_of(&p), "inconsistent function");
    // a frame without function is fine
    let mut p = valid_profile();
    let mut l = location(2);
    l.line.push(Line::default());
    p.location.push(l);
    assert_eq!(p.validate(), Ok(()));
}
