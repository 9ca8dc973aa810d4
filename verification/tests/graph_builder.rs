use rock::errors::ErrorKind;
use rock::graph::builder::{Graph, Options};
use rock::graph::info::NodeInfo;
use rock::graph::node::Edge;
use rock::profile::function::Function;
use rock::profile::line::Line;
use rock::profile::location::Location;
use rock::profile::mapping::Mapping;
use rock::profile::sample::Sample;
use rock::profile::value_type::ValueType;
use rock::profile::Profile;
use rock::reports::Report;

fn function(id: u64, name: &str, file: &str, start_line: i64) -> Function {
    let mut f = Function::default();
    f.id = id;
    f.name = name.to_string();
    f.system_name = format!("_{}", name);
    f.filename = file.to_string();
    f.start_line = start_line;
    f
}

fn location(id: u64, address: u64, frames: &[(&Function, i64)]) -> Location {
    let mut l = Location::default();
    l.id = id;
    l.address = address;
    let mut m = Mapping::default();
    m.id = 1;
    m.filename = String::from("/usr/bin/tool");
    l.mapping = Some(m);
    for (f, line) in frames {
        l.line.push(Line { line: *line, function_index: f.id, function: (*f).clone() });
    }
    l
}

fn sample(stack: &[&Location], values: &[i64]) -> Sample {
    let mut s = Sample::default();
    for l in stack {
        s.location.push((*l).clone());
        s.location_index.push(l.id);
    }
    s.value = values.to_vec();
    s
}

fn options() -> Options {
    Options {
        sample_value: 1,
        sample_mean_divisor: None,
        obj_names: false,
        orig_fn_names: false,
        drop_negative: false,
        kept_nodes: None,
    }
}

/// main calls foo, which is inlined at the first location; main alone is at
/// the second; the third has no frame.
fn profile() -> Profile {
    let main = function(1, "main", "main.go", 10);
    let foo = function(2, "foo", "foo.go", 5);
    let l1 = location(1, 0x1234, &[(&foo, 7), (&main, 20)]);
    let l2 = location(2, 0x1300, &[(&main, 21)]);
    let l3 = location(3, 0x5, &[]);
    let mut p = Profile::default();
    p.sample_type.push(ValueType::default());
    p.sample_type.push(ValueType::default());
    p.function.push(main);
    p.function.push(foo);
    p.sample.push(sample(&[&l1, &l2], &[1, 100]));
    p.sample.push(sample(&[&l2], &[2, 200]));
    p.sample.push(sample(&[&l3], &[3, -5]));
    p.location.push(l1);
    p.location.push(l2);
    p.location.push(l3);
    p
}

fn place(g: &Graph, name: &str, lineno: i64) -> usize {
    g.nodes.iter().position(|n| n.info.name == name && n.info.lineno == lineno).unwrap()
}

fn check_symmetry(g: &Graph) {
    for (u, node) in g.nodes.iter().enumerate() {
        assert_eq!(node.index, u);
        for v in 0..g.nodes.len() {
            let out = node.out.get(v);
            assert_eq!(out, g.nodes[v].in_edges.get(u));
            if let Some(e) = out {
                assert_eq!((e.src, e.dest), (u, v));
            }
        }
        let f = node.function.unwrap();
        assert_eq!(g.nodes[f].info.name, node.info.name);
        assert_eq!(g.nodes[f].info.address, 0);
        assert_eq!(g.nodes[f].info.lineno, 0);
    }
}

#[test]
fn graph_of_a_small_profile() {
    let p = profile();
    let g = Graph::new(&p, &options()).unwrap();
    // two function nodes, three frame nodes, the node of the bare address and
    // the node of its function
    assert_eq!(g.nodes.len(), 7);
    check_symmetry(&g);
    let foo = place(&g, "foo", 7);
    let main20 = place(&g, "main", 20);
    let main21 = place(&g, "main", 21);
    assert_eq!((g.nodes[main21].cum, g.nodes[main21].flat), (300, 200));
    assert_eq!((g.nodes[main20].cum, g.nodes[main20].flat), (100, 0));
    assert_eq!((g.nodes[foo].cum, g.nodes[foo].flat), (100, 100));
    assert_eq!(g.nodes[main20].function, g.nodes[main21].function);
    assert_eq!(
        g.nodes[main21].out.get(main20),
        Some(Edge {
            src: main21,
            dest: main20,
            weight: 100,
            weight_div: 0,
            residual: false,
            inline: false
        })
    );
    assert_eq!(
        g.nodes[main20].out.get(foo),
        Some(Edge {
            src: main20,
            dest: foo,
            weight: 100,
            weight_div: 0,
            residual: false,
            inline: true
        })
    );
    assert_eq!(g.nodes[foo].out.len(), 0);
    assert_eq!(g.nodes[foo].in_edges.len(), 1);
    let bare = g.nodes.iter().position(|n| n.info.address == 5).unwrap();
    assert_eq!((g.nodes[bare].cum, g.nodes[bare].flat), (-5, -5));
    assert_eq!(g.nodes[foo].info.file, "foo.go");
    assert_eq!(g.nodes[foo].info.start_line, 5);
    assert_eq!(g.nodes[foo].info.orig_name, "");
    assert_eq!(g.nodes[foo].info.objfile, "");
}

#[test]
fn negative_samples_are_dropped_on_request() {
    let p = profile();
    let mut opt = options();
    opt.drop_negative = true;
    let g = Graph::new(&p, &opt).unwrap();
    let bare = g.nodes.iter().position(|n| n.info.address == 5).unwrap();
    assert_eq!((g.nodes[bare].cum, g.nodes[bare].flat), (0, 0));
    check_symmetry(&g);
}

#[test]
fn divisor_and_names_follow_the_options() {
    let p = profile();
    let mut opt = options();
    opt.sample_mean_divisor = Some(0);
    opt.obj_names = true;
    opt.orig_fn_names = true;
    let g = Graph::new(&p, &opt).unwrap();
    let main21 = place(&g, "main", 21);
    assert_eq!((g.nodes[main21].cum, g.nodes[main21].cum_div), (300, 3));
    assert_eq!((g.nodes[main21].flat, g.nodes[main21].flat_div), (200, 2));
    assert_eq!(g.nodes[main21].cum_value(), 100);
    assert_eq!(g.nodes[main21].info.objfile, "/usr/bin/tool");
    assert_eq!(g.nodes[main21].info.orig_name, "_main");
    let main20 = place(&g, "main", 20);
    assert_eq!(g.nodes[main21].out.get(main20).unwrap().weight_div, 1);
    assert_eq!(g.nodes[main21].info.printable_name(), "1300 main main.go:21 main.go main [tool]");
    check_symmetry(&g);
}

#[test]
fn nodes_that_are_not_kept_make_edges_residual() {
    let p = profile();
    let full = Graph::new(&p, &options()).unwrap();
    let mut kept: Vec<NodeInfo> = vec![];
    for n in &full.nodes {
        if !(n.info.name == "main" && n.info.lineno == 20) {
            kept.push(n.info.clone());
        }
    }
    let mut opt = options();
    opt.kept_nodes = Some(kept);
    let g = Graph::new(&p, &opt).unwrap();
    assert!(g.nodes.iter().all(|n| !(n.info.name == "main" && n.info.lineno == 20)));
    let foo = place(&g, "foo", 7);
    let main21 = place(&g, "main", 21);
    let e = g.nodes[main21].out.get(foo).unwrap();
    assert_eq!((e.weight, e.residual, e.inline), (100, true, true));
    check_symmetry(&g);
}

#[test]
fn a_node_is_counted_once_for_each_sample() {
    // main calls itself: the stack holds the same location twice
    let main = function(1, "main", "main.go", 10);
    let l = location(1, 0x10, &[(&main, 3)]);
    let mut p = Profile::default();
    p.sample_type.push(ValueType::default());
    p.sample.push(sample(&[&l, &l, &l], &[4]));
    p.location.push(l);
    let mut opt = options();
    opt.sample_value = 0;
    let g = Graph::new(&p, &opt).unwrap();
    let n = place(&g, "main", 3);
    assert_eq!((g.nodes[n].cum, g.nodes[n].flat), (4, 4));
    assert_eq!(g.nodes[n].out.len(), 0);
    check_symmetry(&g);
}

#[test]
fn sums_that_do_not_fit_fail() {
    let main = function(1, "main", "main.go", 10);
    let l = location(1, 0x10, &[(&main, 3)]);
    let mut p = Profile::default();
    p.sample_type.push(ValueType::default());
    p.sample.push(sample(&[&l], &[i64::MAX]));
    p.sample.push(sample(&[&l], &[1]));
    p.location.push(l);
    let mut opt = options();
    opt.sample_value = 0;
    let err = Graph::new(&p, &opt).unwrap_err();
    assert_eq!(err.kind(), ErrorKind::Unknown);
}

#[test]
fn edges_of_a_graph_by_hand() {
    let mut g = Graph::empty();
    let a = g.find_or_insert_node(NodeInfo { name: String::from("a"), ..NodeInfo::default() });
    let b = g.find_or_insert_node(NodeInfo { name: String::from("b"), ..NodeInfo::default() });
    assert_eq!(g.find_or_insert_node(NodeInfo { name: String::from("a"), ..NodeInfo::default() }), a);
    assert_eq!((a, b), (0, 1));
    assert_eq!(g.nodes[a].function, Some(a));
    g.add_edge(a, b, 1, 10, false, true);
    g.add_edge(a, b, 1, 5, true, true);
    g.add_edge(b, b, 0, 2, false, false);
    let want = Edge { src: a, dest: b, weight: 15, weight_div: 2, residual: true, inline: true };
    assert_eq!(g.nodes[a].out.get(b), Some(want));
    assert_eq!(g.nodes[b].in_edges.get(a), Some(want));
    assert_eq!(g.nodes[b].out.get(b), g.nodes[b].in_edges.get(b));
    assert_eq!(g.nodes[b].out.get(b).unwrap().weight, 2);
    check_symmetry(&g);
    g.init_graph();
    assert!(g.nodes.is_empty());
}

#[test]
fn report_makes_the_graph_and_the_units() {
    let mut p = profile();
    p.sample[0].num_label.append("request", 4);
    let opt = options();
    let report = Report::new(&p, &opt);
    assert_eq!(report.total, 0);
    let units = report.identify_num_label_units().unwrap();
    assert_eq!(units.get("request"), Some(&String::from("bytes")));
    let g = report.generate_report().unwrap();
    assert_eq!(g, Graph::new(&p, &opt).unwrap());
}

#[test]
fn labels_of_samples_become_tags() {
    let mut p = profile();
    p.sample[0].label.append("key1", String::from("val1"));
    p.sample[0].label.append("key0", String::from("a"));
    p.sample[0].label.append("key1", String::from("val2"));
    p.sample[0].num_label.append("bytes", 64);
    p.sample[0].num_label.append("bytes", 32);
    p.sample[0].num_unit_label.append("bytes", String::from("kilobytes"));
    p.sample[0].num_unit_label.append("bytes", String::new());
    p.sample[0].num_label.append("count", 3);
    let g = Graph::new(&p, &options()).unwrap();
    check_symmetry(&g);
    let foo = place(&g, "foo", 7);
    let main21 = place(&g, "main", 21);
    let joined = "key0:a\nkey1:val1\nkey1:val2";
    // the leaf is counted for the inclusive and for the exclusive value
    let tag = g.nodes[foo].label_tags.get(joined).unwrap();
    assert_eq!((tag.name.as_str(), tag.unit.as_str(), tag.value), (joined, "", 0));
    assert_eq!((tag.cum, tag.flat), (100, 100));
    let numeric = g.nodes[foo].numeric_tags.get(joined).unwrap();
    assert_eq!(numeric.len(), 3);
    let t = numeric.get("64kilobytes").unwrap();
    assert_eq!((t.unit.as_str(), t.value, t.cum, t.flat), ("kilobytes", 64, 100, 100));
    let t = numeric.get("32").unwrap();
    assert_eq!((t.unit.as_str(), t.value, t.cum), ("", 32, 100));
    let t = numeric.get("3count").unwrap();
    assert_eq!((t.unit.as_str(), t.value, t.cum), ("count", 3, 100));
    // the root is counted for the inclusive value alone, and by the second
    // sample without labels
    let tag = g.nodes[main21].label_tags.get(joined).unwrap();
    assert_eq!((tag.cum, tag.flat), (100, 0));
    assert!(g.nodes[main21].numeric_tags.get("").unwrap().is_empty());
    assert_eq!(g.nodes[main21].label_tags.len(), 1);
    assert_eq!(g.nodes[main21].numeric_tags.len(), 2);
}

#[test]
fn marks_of_a_sample() {
    let mut s = Sample::default();
    assert_eq!(rock::graph::builder::marks_of_sample(&s).joined, "");
    s.label.append("b", String::from("2"));
    s.label.append("a", String::from("1"));
    s.num_label.append("n", -4);
    let marks = rock::graph::builder::marks_of_sample(&s);
    assert_eq!(marks.joined, "a:1\nb:2");
    assert_eq!(marks.numeric, vec![(String::from("-4n"), String::from("n"), -4)]);
}
