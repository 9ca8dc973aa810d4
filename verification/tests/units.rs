use rock::keyed::KeyedList;
use rock::profile::sample::Sample;
use rock::profile::Profile;

struct TagFilterTests {
    desc: String,
    tag_vals: Vec<KeyedList<Vec<i64>>>,
    tag_units: Vec<KeyedList<Vec<String>>>,
    want_units: KeyedList<String>,
    want_ignored_units: KeyedList<Vec<String>>,
}

fn tag_vals_init(pairs: &[(&str, i64)]) -> Vec<KeyedList<Vec<i64>>> {
    let mut m = KeyedList::new();
    for (key, value) in pairs {
        m.append(key, *value);
    }
    vec![m]
}

fn tag_units_init(pairs: &[(&str, &str)]) -> Vec<KeyedList<Vec<String>>> {
    let mut m = KeyedList::new();
    for (key, value) in pairs {
        m.append(key, value.to_string());
    }
    vec![m]
}

fn want_units_init(pairs: &[(&str, &str)]) -> KeyedList<String> {
    let mut m = KeyedList::new();
    for (key, value) in pairs {
        m.insert(key.to_string(), value.to_string());
    }
    m
}

fn want_ignored_units_init(pairs: &[(&str, &str)]) -> KeyedList<Vec<String>> {
    let mut m = KeyedList::new();
    for (key, value) in pairs {
        m.append(key, value.to_string());
    }
    m
}

fn keys_match_units(map1: &KeyedList<String>, map2: &KeyedList<String>) -> bool {
    map1.len() == map2.len() && (0..map1.len()).all(|i| map2.contains_key(map1.key_at(i)))
}

fn keys_match_ignored(map1: &KeyedList<Vec<String>>, map2: &KeyedList<Vec<String>>) -> bool {
    map1.len() == map2.len() && (0..map1.len()).all(|i| map2.contains_key(map1.key_at(i)))
}

fn copy_nums(m: &KeyedList<Vec<i64>>) -> KeyedList<Vec<i64>> {
    let mut out = KeyedList::new();
    for i in 0..m.len() {
        out.insert(m.key_at(i).clone(), m.value_at(i).clone());
    }
    out
}

fn copy_texts(m: &KeyedList<Vec<String>>) -> KeyedList<Vec<String>> {
    let mut out = KeyedList::new();
    for i in 0..m.len() {
        out.insert(m.key_at(i).clone(), m.value_at(i).clone());
    }
    out
}

#[test]
fn test_num_label_units() {
    let mut tests = vec![];

    tests.push(TagFilterTests {
        desc: String::from("One sample, multiple keys, different specified units"),
        tag_vals: tag_vals_init(&[("key1", 131_072), ("key2", 128)]),
        tag_units: tag_units_init(&[("key1", "bytes"), ("key2", "kilobytes")]),
        want_units: want_units_init(&[("key1", "bytes"), ("key2", "kilobytes")]),
        want_ignored_units: KeyedList::new(),
    });
    tests.push(TagFilterTests {
        desc: String::from("One sample, one key with one value, unit specified"),
        tag_vals: tag_vals_init(&[("key1", 8)]),
        tag_units: tag_units_init(&[("key1", "bytes")]),
        want_units: want_units_init(&[("key1", "bytes")]),
        want_ignored_units: KeyedList::new(),
    });
    tests.push(TagFilterTests {
        desc: String::from("One sample, one key with one value, empty unit specified"),
        tag_vals: tag_vals_init(&[("key1", 8)]),
        tag_units: tag_units_init(&[("key1", "")]),
        want_units: want_units_init(&[("key1", "key1")]),
        want_ignored_units: KeyedList::new(),
    });
    tests.push(TagFilterTests {
        desc: String::from("Key bytes, unit not specified"),
        tag_vals: tag_vals_init(&[("bytes", 8)]),
        tag_units: Vec::new(),
        want_units: want_units_init(&[("bytes", "bytes")]),
        want_ignored_units: KeyedList::new(),
    });
    tests.push(TagFilterTests {
        desc: String::from("One sample, one key with one value, unit not specified"),
        tag_vals: tag_vals_init(&[("kilobytes", 8)]),
        tag_units: Vec::new(),
        want_units: want_units_init(&[("kilobytes", "kilobytes")]),
        want_ignored_units: KeyedList::new(),
    });
    tests.push(TagFilterTests {
        desc: String::from("Key request, unit not specified"),
        tag_vals: tag_vals_init(&[("request", 8)]),
        tag_units: Vec::new(),
        want_units: want_units_init(&[("request", "bytes")]),
        want_ignored_units: KeyedList::new(),
    });
    tests.push(TagFilterTests {
        desc: String::from("Key alignment, unit not specified"),
        tag_vals: tag_vals_init(&[("alignment", 8)]),
        tag_units: Vec::new(),
        want_units: want_units_init(&[("alignment", "bytes")]),
        want_ignored_units: KeyedList::new(),
    });
    tests.push(TagFilterTests {
        desc: String::from("One sample, one key with multiple values and two different units"),
        tag_vals: tag_vals_init(&[("key1", 8), ("key1", 8)]),
        tag_units: tag_units_init(&[("key1", "bytes"), ("key1", "kilobytes")]),
        want_units: want_units_init(&[("key1", "bytes")]),
        want_ignored_units: want_ignored_units_init(&[("key1", "kilobytes")]),
    });
    tests.push(TagFilterTests {
        desc: String::from("One sample, one key with multiple values and three different units"),
        tag_vals: tag_vals_init(&[("key1", 8), ("key1", 8)]),
        tag_units: tag_units_init(&[
            ("key1", "bytes"),
            ("key1", "megabytes"),
            ("key1", "kilobytes"),
        ]),
        want_units: want_units_init(&[("key1", "bytes")]),
        want_ignored_units: want_ignored_units_init(&[
            ("key1", "kilobytes"),
            ("key1", "megabytes"),
        ]),
    });
    tests.push(TagFilterTests {
        desc: String::from("Two samples, one key, different units specified"),
        tag_vals: tag_vals_init(&[("key1", 8), ("key1", 8)]),
        tag_units: tag_units_init(&[("key1", "bytes"), ("key1", "kilobytes")]),
        want_units: want_units_init(&[("key1", "bytes")]),
        want_ignored_units: want_ignored_units_init(&[("key1", "kilobytes")]),
    });
    tests.push(TagFilterTests {
        desc: String::from("Keys alignment, request, and bytes have units specified"),
        tag_vals: tag_vals_init(&[("alignment", 8), ("request", 8), ("bytes", 8)]),
        tag_units: tag_units_init(&[
            ("alignment", "seconds"),
            ("request", "minutes"),
            ("bytes", "hours"),
        ]),
        want_units: want_units_init(&[
            ("alignment", "seconds"),
            ("request", "minutes"),
            ("bytes", "hours"),
        ]),
        want_ignored_units: KeyedList::new(),
    });

    for test in tests {
        let mut p = Profile::default();
        for (i, num_label) in test.tag_vals.iter().enumerate() {
            let mut s = Sample::default();

            s.num_label = copy_nums(num_label);
            if test.tag_units.is_empty() {
                s.num_unit_label = KeyedList::new();
            } else {
                s.num_unit_label = copy_texts(&test.tag_units[i]);
            }

            p.sample.push(s);
        }

        let (units, ignore_units) = p.num_label_units().unwrap();

        assert_eq!(keys_match_units(&units, &test.want_units), true, "{}", test.desc);
        assert_eq!(
            keys_match_ignored(&ignore_units, &test.want_ignored_units),
            true,
            "{}",
            test.desc
        );
        // the values as well as the keys
        assert_eq!(units, test.want_units, "{}", test.desc);
        assert_eq!(ignore_units, test.want_ignored_units, "{}", test.desc);
    }
}

fn sample_with(nums: &[(&str, i64)], units: &[(&str, &str)]) -> Sample {
    let mut s = Sample::default();
    for (key, value) in nums {
        s.num_label.append(key, *value);
    }
    for (key, unit) in units {
        s.num_unit_label.append(key, unit.to_string());
    }
    s
}

#[test]
fn units_of_two_samples_conflict() {
    let mut p = Profile::default();
    p.sample.push(sample_with(&[("key1", 8)], &[("key1", "bytes")]));
    p.sample.push(sample_with(&[("key1", 8)], &[("key1", "kilobytes")]));
    let (units, ignored) = p.num_label_units().unwrap();
    assert_eq!(units.len(), 1);
    assert_eq!(units.get("key1"), Some(&String::from("bytes")));
    assert_eq!(ignored.len(), 1);
    assert_eq!(ignored.get("key1"), Some(&vec![String::from("kilobytes")]));
}

#[test]
fn ignored_units_are_sorted_and_distinct() {
    let mut p = Profile::default();
    p.sample.push(sample_with(
        &[("key1", 1), ("key1", 2), ("key1", 3), ("key1", 4), ("key1", 5)],
        &[
            ("key1", "bytes"),
            ("key1", "megabytes"),
            ("key1", "kilobytes"),
            ("key1", "megabytes"),
            ("key1", "bytes"),
        ],
    ));
    let (units, ignored) = p.num_label_units().unwrap();
    assert_eq!(units.get("key1"), Some(&String::from("bytes")));
    assert_eq!(
        ignored.get("key1"),
        Some(&vec![String::from("kilobytes"), String::from("megabytes")])
    );
}

#[test]
fn units_are_inferred_from_the_key() {
    let mut p = Profile::default();
    p.sample.push(sample_with(&[("alignment", 1), ("request", 2), ("other", 3)], &[]));
    let (units, ignored) = p.num_label_units().unwrap();
    assert_eq!(units.get("alignment"), Some(&String::from("bytes")));
    assert_eq!(units.get("request"), Some(&String::from("bytes")));
    assert_eq!(units.get("other"), Some(&String::from("other")));
    assert!(ignored.is_empty());
}

#[test]
fn units_of_keys_without_numbers_are_passed_over() {
    // a unit under a key that has no number in that sample is not looked at
    let mut p = Profile::default();
    p.sample.push(sample_with(&[("a", 1)], &[("b", "bytes")]));
    let (units, ignored) = p.num_label_units().unwrap();
    assert_eq!(units.len(), 1);
    assert_eq!(units.get("a"), Some(&String::from("a")));
    assert!(!units.contains_key("b"));
    assert!(ignored.is_empty());
}

#[test]
fn no_samples_no_units() {
    let p = Profile::default();
    let (units, ignored) = p.num_label_units().unwrap();
    assert!(units.is_empty());
    assert!(ignored.is_empty());
}
