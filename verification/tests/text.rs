use rock::http_server::{path_of, Profiles, Server};
use rock::keyed::KeyedList;
use rock::profile::render::duration_string;
use rock::text::{
    compare_text, dec_string, join_texts, push_hex, push_padded, signed_string, Order,
};

#[test]
fn decimal_notation() {
    assert_eq!(dec_string(0), "0");
    assert_eq!(dec_string(9), "9");
    assert_eq!(dec_string(10), "10");
    assert_eq!(dec_string(u64::MAX), "18446744073709551615");
    assert_eq!(signed_string(-1), "-1");
    assert_eq!(signed_string(i64::MIN), "-9223372036854775808");
    assert_eq!(signed_string(i64::MAX), "9223372036854775807");
}

#[test]
fn hexadecimal_notation() {
    let mut s = String::from("0x");
    push_hex(&mut s, 0);
    assert_eq!(s, "0x0");
    let mut s = String::new();
    push_hex(&mut s, 0xdead_beef);
    assert_eq!(s, "deadbeef");
    let mut s = String::new();
    push_hex(&mut s, u64::MAX);
    assert_eq!(s, "ffffffffffffffff");
}

#[test]
fn padding_to_a_width() {
    let mut s = String::from("|");
    push_padded(&mut s, "42", 6);
    assert_eq!(s, "|    42");
    let mut s = String::new();
    push_padded(&mut s, "1234567", 6);
    assert_eq!(s, "1234567");
    let mut s = String::new();
    push_padded(&mut s, "é", 3);
    assert_eq!(s, "  é");
}

#[test]
fn joining() {
    let parts = vec![String::from("a"), String::from("b"), String::from("c")];
    assert_eq!(join_texts(&parts, ", "), "a, b, c");
    assert_eq!(join_texts(&vec![String::from("a")], ", "), "a");
    assert_eq!(join_texts(&vec![], ", "), "");
    assert_eq!(join_texts(&vec![String::new(), String::new()], "-"), "-");
}

#[test]
fn order_of_texts() {
    assert_eq!(compare_text("a", "b"), Order::Before);
    assert_eq!(compare_text("b", "a"), Order::After);
    assert_eq!(compare_text("a", "a"), Order::Same);
    assert_eq!(compare_text("", "a"), Order::Before);
    assert_eq!(compare_text("ab", "a"), Order::After);
    assert_eq!(compare_text("", ""), Order::Same);
    assert_eq!(compare_text("a!", "a:"), Order::Before);
    assert_eq!(compare_text("z", "é"), Order::Before);
}

#[test]
fn duration_in_seconds() {
    assert_eq!(duration_string(10_000_000_000), "10");
    assert_eq!(duration_string(10_500_000_000), "10.5");
    assert_eq!(duration_string(1), "0.000000001");
    assert_eq!(duration_string(1_000_000_001), "1.000000001");
    assert_eq!(duration_string(123_456_789_000), "123.456789");
    assert_eq!(duration_string(999_999_999), "0.999999999");
    assert_eq!(duration_string(100_000_000), "0.1");
    assert_eq!(duration_string(0), "0");
}

#[test]
fn keyed_list_keeps_the_order_of_keys() {
    let mut m: KeyedList<String> = KeyedList::new();
    assert!(m.is_empty());
    m.insert(String::from("b"), String::from("2"));
    m.insert(String::from("a"), String::from("1"));
    m.insert(String::from("c"), String::from("3"));
    m.insert(String::from("a"), String::from("one"));
    assert_eq!(m.len(), 3);
    assert_eq!(m.key_at(0), "a");
    assert_eq!(m.key_at(1), "b");
    assert_eq!(m.key_at(2), "c");
    assert_eq!(m.value_at(0), "one");
    assert_eq!(m.get("b"), Some(&String::from("2")));
    assert_eq!(m.get("d"), None);
    assert!(m.contains_key("c"));
    assert_eq!(m.position("bb"), (2, false));
    assert_eq!(m.position("b"), (1, true));
    m.set_value_at(1, String::from("two"));
    assert_eq!(m.get("b"), Some(&String::from("two")));
}

#[test]
fn keyed_list_appends_under_a_key() {
    let mut m: KeyedList<Vec<i64>> = KeyedList::new();
    m.append("k", 1);
    m.append("j", 5);
    m.append("k", 2);
    assert_eq!(m.len(), 2);
    assert_eq!(m.get("k"), Some(&vec![1, 2]));
    assert_eq!(m.get("j"), Some(&vec![5]));
    assert_eq!(m.key_at(0), "j");
}

#[test]
fn paths_of_the_profiles() {
    assert_eq!(path_of(Profiles::Heap, 0), "/debug/pprof/heap");
    assert_eq!(path_of(Profiles::Goroutine, 0), "/debug/pprof/goroutine");
    assert_eq!(path_of(Profiles::ThreadCreate, 0), "/debug/pprof/threadcreate");
    assert_eq!(path_of(Profiles::Block, 0), "/debug/pprof/block");
    assert_eq!(path_of(Profiles::Mutex, 0), "/debug/pprof/mutex");
    assert_eq!(path_of(Profiles::Cpu, 30), "/debug/pprof/profile?seconds=30");
    assert_eq!(path_of(Profiles::Trace, 5), "/debug/pprof/trace?seconds=5");
    let s = Server::new("any");
    assert_eq!(s.paths.len(), 5);
    assert_eq!(s.paths[0], (Profiles::Heap, String::from("/debug/pprof/heap")));
    assert_eq!(s.paths[4], (Profiles::Mutex, String::from("/debug/pprof/mutex")));
    let s = Server::new_timed_profiles(12);
    assert_eq!(
        s.paths,
        vec![
            (Profiles::Cpu, String::from("/debug/pprof/profile?seconds=12")),
            (Profiles::Trace, String::from("/debug/pprof/trace?seconds=12")),
        ]
    );
}
