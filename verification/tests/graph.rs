use rock::graph::info::{get_basename, NodeInfo};
use rock::graph::node::{Edge, EdgeMap, Node, Tag};

const SEPARATOR: &str = "/";

#[test]
fn test_get_basename() {
    assert_eq!(get_basename("/usr/data", SEPARATOR), "data");
    assert_eq!(get_basename("/", SEPARATOR), "");
    assert_eq!(get_basename("/root", SEPARATOR), "root");
}

#[test]
fn basename_edge_cases() {
    assert_eq!(get_basename("plain", SEPARATOR), "plain");
    assert_eq!(get_basename("", SEPARATOR), "");
    assert_eq!(get_basename("a/b/", SEPARATOR), "");
    assert_eq!(get_basename("C:\\bin\\tool.exe", "\\"), "tool.exe");
    assert_eq!(get_basename("a--b--c", "--"), "c");
    assert_eq!(get_basename("héllo/wörld", SEPARATOR), "wörld");
    // the empty separator occurs at the very end
    assert_eq!(get_basename("abc", ""), "");
    assert_eq!(get_basename("ab", "abc"), "ab");
}

#[test]
fn name_components_of_an_empty_info() {
    let info = NodeInfo::default();
    assert_eq!(info.name_components(), vec![String::from("<unknown>")]);
    assert_eq!(info.printable_name(), "<unknown>");
}

#[test]
fn name_components_in_order() {
    let info = NodeInfo {
        name: String::from("main"),
        orig_name: String::from("_main"),
        address: 0x4a3f,
        file: String::from("main.go"),
        start_line: 3,
        lineno: 12,
        objfile: String::from("/usr/bin/tool"),
    };
    assert_eq!(
        info.name_components(),
        vec![
            String::from("4a3f"),
            String::from("main"),
            String::from("main.go:12"),
            String::from("main.go"),
            String::from("main"),
            String::from("[tool]"),
        ]
    );
    assert_eq!(info.printable_name(), "4a3f main main.go:12 main.go main [tool]");
    assert_eq!(info.name_components_with("\\")[5], "[/usr/bin/tool]");
}

#[test]
fn name_components_with_negative_line() {
    let info = NodeInfo {
        name: String::new(),
        orig_name: String::new(),
        address: 0,
        file: String::new(),
        start_line: 0,
        lineno: -7,
        objfile: String::new(),
    };
    assert_eq!(info.printable_name(), ":-7");
}

fn tag(flat: i64, flat_div: i64, cum: i64, cum_div: i64) -> Tag {
    Tag { name: String::from("t"), unit: String::new(), value: 0, flat, flat_div, cum, cum_div }
}

#[test]
fn values_are_means_where_a_divisor_is_there() {
    let t = tag(10, 0, 21, 4);
    assert_eq!(t.flat_value(), 10);
    assert_eq!(t.cum_value(), 5);
    let t = tag(-7, 2, 7, -2);
    assert_eq!(t.flat_value(), -3);
    assert_eq!(t.cum_value(), -3);
    let mut n = Node::new();
    n.flat = 9;
    n.flat_div = 2;
    n.cum = -9;
    n.cum_div = -2;
    assert_eq!(n.flat_value(), 4);
    assert_eq!(n.cum_value(), 4);
    let e = Edge { src: 0, dest: 1, weight: 100, weight_div: 0, residual: false, inline: false };
    assert_eq!(e.weight_value(), 100);
    let e = Edge { weight_div: 3, ..e };
    assert_eq!(e.weight_value(), 33);
}

#[test]
fn edge_between_two_nodes() {
    let mut a = Node::new();
    let mut b = Node::new();
    a.index = 0;
    b.index = 1;
    a.add_to_edge_div(&mut b, 2, 10, false, true);
    let want = Edge { src: 0, dest: 1, weight: 10, weight_div: 2, residual: false, inline: true };
    assert_eq!(a.out.get(1), Some(want));
    assert_eq!(b.in_edges.get(0), Some(want));
    assert_eq!(a.in_edges.len(), 0);
    assert_eq!(b.out.len(), 0);
    // a second contribution adds the weights and merges the marks
    a.add_to_edge(&mut b, 5, true, false);
    let want = Edge { src: 0, dest: 1, weight: 15, weight_div: 2, residual: true, inline: false };
    assert_eq!(a.out.get(1), Some(want));
    assert_eq!(b.in_edges.get(0), Some(want));
    // inline stays only while every contribution is inline
    let mut c = Node::new();
    c.index = 2;
    a.add_to_edge(&mut c, 1, false, true);
    a.add_to_edge(&mut c, 1, false, true);
    assert_eq!(a.out.get(2).unwrap().inline, true);
    assert_eq!(c.in_edges.get(0).unwrap().weight, 2);
    let _ = EdgeMap::new();
}
