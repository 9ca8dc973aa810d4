//! The graph of a profile: its nodes in one list, its edges in the
//! tables of the nodes at their two ends.

use crate::errors::{ErrorKind, RockError};
use crate::graph::info::{NodeInfo, NodeInfoView};
use crate::graph::node::{
    bump_all, bump_in, bump_tag, bump_tags, edge_sum_fits, edge_under, merge_edge, merged_edge,
    Edge, Node, NodeView, TagMark, TagView,
};
use crate::keyed::{insert_model, lookup, KeyedList};
use crate::text::{dec_text, join, join_texts, signed_string};
use crate::profile::function::FunctionView;
use crate::profile::location::{Location, LocationView};
use crate::profile::index::{last_position, lemma_last_position, IdIndex};
use crate::profile::link::list_location_ids;
use crate::profile::sample::{Sample, SampleView};
use crate::profile::validate::location_ids;
use crate::profile::{views, Profile, ProfileView};
use vstd::string::StringExecFns;
use vstd::prelude::*;

verus! {

/// A graph: the nodes of a report. An edge from the node at place `u` to
/// the node at place `v` stands in the outbound table of `u` under `v` and
/// in the inbound table of `v` under `u`.
#[derive(Debug, PartialEq, Eq)]
pub struct Graph {
    pub nodes: Vec<Node>,
}

impl View for Graph {
    type V = Seq<NodeView>;

    open spec fn view(&self) -> Seq<NodeView> {
        views(self.nodes@)
    }
}

/// Every node knows its place.
pub open spec fn places_agree(g: Seq<NodeView>) -> bool {
    forall|i: int| 0 <= i < g.len() ==> (#[trigger] g[i]).index == i
}

/// Edge symmetry: what the outbound table of `u` holds under `v` is
/// what the inbound table of `v` holds under `u`.
pub open spec fn edges_agree(g: Seq<NodeView>) -> bool {
    forall|u: usize, v: usize|
        u < g.len() && v < g.len() ==> #[trigger] edge_under(g[u as int].out, v) == edge_under(
            g[v as int].in_edges,
            u,
        )
}

/// Every edge joins two nodes of the graph, and names them as its ends.
pub open spec fn edges_in_range(g: Seq<NodeView>) -> bool {
    &&& forall|u: int, v: usize|
        0 <= u < g.len() && #[trigger] g[u].out.contains_key(v) ==> v < g.len() && g[u].out[v].src
            == u && g[u].out[v].dest == v
    &&& forall|v: int, u: usize|
        0 <= v < g.len() && #[trigger] g[v].in_edges.contains_key(u) ==> u < g.len()
}

/// No two nodes have the same attributes.
pub open spec fn infos_distinct(g: Seq<NodeView>) -> bool {
    forall|i: int, j: int| 0 <= i < j < g.len() ==> (#[trigger] g[i]).info != (#[trigger] g[j]).info
}

/// The attributes of the whole function that a node belongs to: those
/// of the node without address and line.
pub open spec fn function_entry(info: NodeInfoView) -> NodeInfoView {
    NodeInfoView { address: 0, lineno: 0, ..info }
}

/// The node of the function of a node is the node of the graph with the
/// attributes of the whole function.
pub open spec fn functions_in_range(g: Seq<NodeView>) -> bool {
    forall|i: int|
        0 <= i < g.len() ==> ((#[trigger] g[i]).function matches Some(f) ==> f < g.len()
            && g[f as int].info == function_entry(g[i].info))
}

/// What holds of every graph that this library makes.
pub open spec fn graph_wf(g: Seq<NodeView>) -> bool {
    &&& places_agree(g)
    &&& edges_agree(g)
    &&& edges_in_range(g)
    &&& infos_distinct(g)
    &&& functions_in_range(g)
}

/// Edge symmetry: every edge of the outbound table of a node stands in
/// the inbound table of the node at its other end, under the place of the
/// first node, and is the same edge there.
pub proof fn lemma_edges_are_symmetric(g: Seq<NodeView>, u: usize, v: usize)
    requires
        graph_wf(g),
        u < g.len(),
        g[u as int].out.contains_key(v),
    ensures
        v < g.len(),
        g[u as int].out[v].src == u,
        g[u as int].out[v].dest == v,
        g[v as int].in_edges.contains_key(u),
        g[v as int].in_edges[u] == g[u as int].out[v],
{
    assert(edge_under(g[u as int].out, v) == edge_under(g[v as int].in_edges, u));
}

/// The graph after one more contribution to the edge from `src` to
/// `dest`.
pub open spec fn with_edge(
    g: Seq<NodeView>,
    src: usize,
    dest: usize,
    dv: i64,
    v: i64,
    residual: bool,
    inline: bool,
) -> Seq<NodeView> {
    let e = merged_edge(edge_under(g[src as int].out, dest), src, dest, dv, v, residual, inline);
    let a = g.update(src as int, NodeView { out: g[src as int].out.insert(dest, e), ..g[src as int] });
    a.update(dest as int, NodeView { in_edges: a[dest as int].in_edges.insert(src, e), ..a[dest as int] })
}

/// A contribution to an edge keeps the graph well-formed: the edge is
/// the same in the tables at its two ends.
pub proof fn lemma_with_edge(
    g: Seq<NodeView>,
    src: usize,
    dest: usize,
    dv: i64,
    v: i64,
    residual: bool,
    inline: bool,
)
    requires
        graph_wf(g),
        src < g.len(),
        dest < g.len(),
    ensures
        graph_wf(with_edge(g, src, dest, dv, v, residual, inline)),
        edge_under(with_edge(g, src, dest, dv, v, residual, inline)[src as int].out, dest)
            == edge_under(
            with_edge(g, src, dest, dv, v, residual, inline)[dest as int].in_edges,
            src,
        ),
{
    let n = with_edge(g, src, dest, dv, v, residual, inline);
    let before = edge_under(g[src as int].out, dest);
    let e = merged_edge(before, src, dest, dv, v, residual, inline);
    assert(edge_under(g[src as int].out, dest) == edge_under(g[dest as int].in_edges, src));
    assert(before is Some ==> before->0.src == src && before->0.dest == dest) by {
        if before is Some {
            assert(g[src as int].out.contains_key(dest));
        }
    }
    assert forall|a: usize, b: usize| a < n.len() && b < n.len() implies #[trigger] edge_under(
        n[a as int].out,
        b,
    ) == edge_under(n[b as int].in_edges, a) by {
        assert(edge_under(g[a as int].out, b) == edge_under(g[b as int].in_edges, a));
    }
    assert forall|i: int, j: int| 0 <= i < j < n.len() implies (#[trigger] n[i]).info != (
    #[trigger] n[j]).info by {
        assert(g[i].info != g[j].info);
    }
    assert forall|i: int| 0 <= i < n.len() implies (#[trigger] n[i]).index == i by {
        assert(g[i].index == i);
    }
    assert forall|i: int| 0 <= i < n.len() implies ((#[trigger] n[i]).function matches Some(f)
        ==> f < n.len() && n[f as int].info == function_entry(n[i].info)) by {
        assert(g[i].function matches Some(f) ==> f < g.len() && g[f as int].info
            == function_entry(g[i].info));
    }
    assert forall|a: int, b: usize| 0 <= a < n.len() && #[trigger] n[a].out.contains_key(
        b,
    ) implies b < n.len() && n[a].out[b].src == a && n[a].out[b].dest == b by {
        if !(a == src && b == dest) {
            assert(g[a].out.contains_key(b));
        }
    }
    assert forall|b: int, a: usize| 0 <= b < n.len() && #[trigger] n[b].in_edges.contains_key(
        a,
    ) implies a < n.len() by {
        if !(b == dest && a == src) {
            assert(g[b].in_edges.contains_key(a));
        }
    }
}

impl Graph {
    /// The graph without nodes.
    pub fn empty() -> (r: Graph)
        ensures
            r@ == Seq::<NodeView>::empty(),
            graph_wf(r@),
    {
        let r = Graph { nodes: Vec::new() };
        assert(r@ =~= Seq::<NodeView>::empty());
        r
    }

    /// Clears the graph.
    pub fn init_graph(&mut self)
        ensures
            final(self)@ == Seq::<NodeView>::empty(),
            graph_wf(final(self)@),
    {
        self.nodes.clear();
        assert(self@ =~= Seq::<NodeView>::empty());
    }

    /// Adds `v` and `dv` to the weights of the edge from the node at
    /// place `src` to the node at place `dest`; the edge is made where it
    /// is not there. The tables at the two ends take the same edge, so the
    /// graph stays well-formed.
    pub fn add_edge(
        &mut self,
        src: usize,
        dest: usize,
        dv: i64,
        v: i64,
        residual: bool,
        inline: bool,
    )
        requires
            graph_wf(old(self)@),
            src < old(self)@.len(),
            dest < old(self)@.len(),
            edge_sum_fits(edge_under(old(self)@[src as int].out, dest), dv, v),
        ensures
            final(self)@ == with_edge(old(self)@, src, dest, dv, v, residual, inline),
            graph_wf(final(self)@),
    {
        proof {
            lemma_with_edge(self@, src, dest, dv, v, residual, inline);
        }
        let e = merge_edge(self.nodes[src].out.get(dest), src, dest, dv, v, residual, inline);
        assert(self@[src as int] == self.nodes[src as int]@);
        self.nodes[src].out.insert(dest, e);
        self.nodes[dest].in_edges.insert(src, e);
        assert(self@ =~= with_edge(old(self)@, src, dest, dv, v, residual, inline));
    }
}

/// What an `Options` is, as mathematics.
pub struct OptionsView {
    pub sample_value: usize,
    pub sample_mean_divisor: Option<usize>,
    pub obj_names: bool,
    pub orig_fn_names: bool,
    pub drop_negative: bool,
    pub kept_nodes: Option<Seq<NodeInfoView>>,
}

/// How a graph is made from a profile.
#[derive(Debug, PartialEq, Eq)]
pub struct Options {
    /// The place of the value of a sample that is its weight.
    pub sample_value: usize,
    /// The place of the value of a sample that divides its weight, where
    /// means are asked for.
    pub sample_mean_divisor: Option<usize>,
    /// Whether the object file is one of the attributes of a node.
    pub obj_names: bool,
    /// Whether the system name of the function is one of the attributes
    /// of a node.
    pub orig_fn_names: bool,
    /// Whether samples of negative weight are left out.
    pub drop_negative: bool,
    /// Where given, only the nodes with these attributes are made.
    pub kept_nodes: Option<Vec<NodeInfo>>,
}

impl View for Options {
    type V = OptionsView;

    open spec fn view(&self) -> OptionsView {
        OptionsView {
            sample_value: self.sample_value,
            sample_mean_divisor: self.sample_mean_divisor,
            obj_names: self.obj_names,
            orig_fn_names: self.orig_fn_names,
            drop_negative: self.drop_negative,
            kept_nodes: match self.kept_nodes {
                Some(list) => Some(views(list@)),
                None => None,
            },
        }
    }
}

/// The object file of a location: the file of its mapping, where object
/// files are asked for and the location has a mapping.
pub open spec fn object_file(l: LocationView, opt: OptionsView) -> Seq<char> {
    match l.mapping {
        Some(m) if opt.obj_names => m.filename,
        _ => Seq::empty(),
    }
}

/// The attributes of the node of frame `k` of a location. A frame
/// without function gives the address and the object file alone.
pub open spec fn frame_info(l: LocationView, k: int, opt: OptionsView) -> NodeInfoView {
    let ln = l.line[k];
    if ln.function == FunctionView::empty() {
        NodeInfoView { address: l.address, objfile: object_file(l, opt), ..NodeInfoView::empty() }
    } else {
        NodeInfoView {
            name: ln.function.name,
            orig_name: if opt.orig_fn_names {
                ln.function.system_name
            } else {
                Seq::empty()
            },
            address: l.address,
            file: ln.function.filename,
            start_line: ln.function.start_line,
            lineno: ln.line,
            objfile: object_file(l, opt),
        }
    }
}

/// The attributes of the nodes of a location: one for each frame, or,
/// for a location without frames, the address and the object file alone.
pub open spec fn location_infos(l: LocationView, opt: OptionsView) -> Seq<NodeInfoView> {
    if l.line.len() == 0 {
        seq![
            NodeInfoView {
                address: l.address,
                objfile: object_file(l, opt),
                ..NodeInfoView::empty()
            },
        ]
    } else {
        Seq::new(l.line.len(), |k: int| frame_info(l, k, opt))
    }
}

/// Whether the options keep the nodes with these attributes.
pub open spec fn kept(info: NodeInfoView, opt: OptionsView) -> bool {
    match opt.kept_nodes {
        Some(list) => list.contains(info),
        None => true,
    }
}

/// Whether some node has these attributes.
pub open spec fn has_info(g: Seq<NodeView>, info: NodeInfoView) -> bool {
    exists|i: int| 0 <= i < g.len() && (#[trigger] g[i]).info == info
}

/// The place of a node with these attributes.
pub open spec fn place_of(g: Seq<NodeView>, info: NodeInfoView) -> int {
    choose|i: int| 0 <= i < g.len() && (#[trigger] g[i]).info == info
}

/// A node that was just made.
pub open spec fn fresh_node(info: NodeInfoView, index: nat, function: usize) -> NodeView {
    NodeView { index: index as usize, info, function: Some(function), ..NodeView::empty() }
}

/// The graph with a node for a whole function, and the place of that
/// node: the node that is there, or a new one that is its own function.
pub open spec fn interned_entry(g: Seq<NodeView>, info: NodeInfoView) -> (Seq<NodeView>, usize) {
    if has_info(g, info) {
        (g, place_of(g, info) as usize)
    } else {
        (g.push(fresh_node(info, g.len(), g.len() as usize)), g.len() as usize)
    }
}

/// The graph with a node of these attributes, and the place of that
/// node: the node that is there, or a new one. A new node that has an
/// address or a line belongs to the node of its whole function, which is
/// made as well where it is not there.
pub open spec fn interned(g: Seq<NodeView>, info: NodeInfoView) -> (Seq<NodeView>, usize) {
    if has_info(g, info) {
        (g, place_of(g, info) as usize)
    } else if info == function_entry(info) {
        interned_entry(g, info)
    } else {
        let (with_function, f) = interned_entry(g, function_entry(info));
        (
            with_function.push(fresh_node(info, with_function.len(), f)),
            with_function.len() as usize,
        )
    }
}

/// Only one node has given attributes.
pub proof fn lemma_place_of(g: Seq<NodeView>, info: NodeInfoView, i: int)
    requires
        infos_distinct(g),
        0 <= i < g.len(),
        g[i].info == info,
    ensures
        has_info(g, info),
        place_of(g, info) == i,
{
    let p = place_of(g, info);
    if p < i {
        assert(g[p].info != g[i].info);
    } else if i < p {
        assert(g[i].info != g[p].info);
    }
}

proof fn lemma_pushed_wf(g: Seq<NodeView>, info: NodeInfoView, f: usize)
    requires
        graph_wf(g),
        g.len() < usize::MAX,
        !has_info(g, info),
        f <= g.len(),
        f < g.len() ==> g[f as int].info == function_entry(info),
        f == g.len() ==> info == function_entry(info),
    ensures
        graph_wf(g.push(fresh_node(info, g.len(), f))),
{
    let n = g.push(fresh_node(info, g.len(), f));
    assert forall|a: usize, b: usize| a < n.len() && b < n.len() implies #[trigger] edge_under(
        n[a as int].out,
        b,
    ) == edge_under(n[b as int].in_edges, a) by {
        if a < g.len() && b < g.len() {
            assert(edge_under(g[a as int].out, b) == edge_under(g[b as int].in_edges, a));
        } else if a < g.len() {
            if g[a as int].out.contains_key(b) {
            }
        } else if b < g.len() {
            if g[b as int].in_edges.contains_key(a) {
            }
        }
    }
    assert forall|i: int, j: int| 0 <= i < j < n.len() implies (#[trigger] n[i]).info != (
    #[trigger] n[j]).info by {
        if j < g.len() {
            assert(g[i].info != g[j].info);
        } else {
            assert(g[i].info != info);
        }
    }
    assert forall|i: int| 0 <= i < n.len() implies ((#[trigger] n[i]).function matches Some(x)
        ==> x < n.len() && n[x as int].info == function_entry(n[i].info)) by {
        if i < g.len() {
            assert(g[i].function matches Some(x) ==> x < g.len() && g[x as int].info
                == function_entry(g[i].info));
        }
    }
    assert forall|a: int, b: usize| 0 <= a < n.len() && #[trigger] n[a].out.contains_key(
        b,
    ) implies b < n.len() && n[a].out[b].src == a && n[a].out[b].dest == b by {
        if a < g.len() {
            assert(g[a].out.contains_key(b));
        }
    }
    assert forall|b: int, a: usize| 0 <= b < n.len() && #[trigger] n[b].in_edges.contains_key(
        a,
    ) implies a < n.len() by {
        if b < g.len() {
            assert(g[b].in_edges.contains_key(a));
        }
    }
}

impl Graph {
    /// The place of the node with the attributes `info`, if there is one.
    pub fn find_info(&self, info: &NodeInfo) -> (r: Option<usize>)
        requires
            infos_distinct(self@),
        ensures
            match r {
                Some(i) => has_info(self@, info@) && i == place_of(self@, info@) && i
                    < self@.len(),
                None => !has_info(self@, info@),
            },
    {
        let mut i: usize = 0;
        while i < self.nodes.len()
            invariant
                i <= self.nodes.len(),
                infos_distinct(self@),
                forall|j: int| 0 <= j < i ==> (#[trigger] self@[j]).info != info@,
            decreases self.nodes.len() - i,
        {
            assert(self@[i as int] == self.nodes[i as int]@);
            if self.nodes[i].info.same(info) {
                proof {
                    lemma_place_of(self@, info@, i as int);
                }
                return Some(i);
            }
            i += 1;
        }
        None
    }

    /// Adds a node that was just made.
    fn push_node(&mut self, info: NodeInfo, function: usize) -> (r: usize)
        requires
            old(self)@.len() < usize::MAX,
        ensures
            r == old(self)@.len(),
            final(self)@ == old(self)@.push(fresh_node(info@, old(self)@.len(), function)),
    {
        let index = self.nodes.len();
        let mut node = Node::new();
        node.index = index;
        node.info = info;
        node.function = Some(function);
        self.nodes.push(node);
        assert(self@ =~= old(self)@.push(fresh_node(info@, old(self)@.len(), function)));
        index
    }

    /// The place of the node with the attributes `info`; the node is
    /// made where it is not there, and with it the node of its whole
    /// function.
    pub fn find_or_insert_node(&mut self, info: NodeInfo) -> (r: usize)
        requires
            graph_wf(old(self)@),
            old(self)@.len() + 2 <= usize::MAX,
        ensures
            (final(self)@, r) == interned(old(self)@, info@),
            graph_wf(final(self)@),
            r < final(self)@.len(),
            final(self)@.len() <= old(self)@.len() + 2,
            final(self)@[r as int].info == info@,
    {
        match self.find_info(&info) {
            Some(i) => {
                return i;
            },
            None => {},
        }
        if info.address == 0 && info.lineno == 0 {
            assert(info@ == function_entry(info@));
            proof {
                lemma_pushed_wf(self@, info@, self@.len() as usize);
            }
            let index = self.nodes.len();
            return self.push_node(info, index);
        }
        let mut entry = info.clone();
        entry.address = 0;
        entry.lineno = 0;
        assert(entry@ == function_entry(info@));
        let f = match self.find_info(&entry) {
            Some(f) => f,
            None => {
                proof {
                    lemma_pushed_wf(self@, entry@, self@.len() as usize);
                }
                let index = self.nodes.len();
                self.push_node(entry, index)
            },
        };
        proof {
            assert(!has_info(self@, info@)) by {
                if has_info(self@, info@) {
                    let i = place_of(self@, info@);
                    if i < old(self)@.len() {
                        assert(old(self)@[i].info == info@);
                    }
                }
            }
            lemma_pushed_wf(self@, info@, f);
        }
        self.push_node(info, f)
    }
}

/// The nodes of the first `n` of a list of attributes, made in a graph:
/// the graph with them, and for each the place of its node, or nothing
/// where the options do not keep it.
pub open spec fn nodes_for_infos(
    g: Seq<NodeView>,
    infos: Seq<NodeInfoView>,
    opt: OptionsView,
    n: nat,
) -> (Seq<NodeView>, Seq<Option<usize>>)
    decreases n,
{
    if n == 0 {
        (g, Seq::empty())
    } else {
        let (before, places) = nodes_for_infos(g, infos, opt, (n - 1) as nat);
        if kept(infos[n - 1], opt) {
            let (after, place) = interned(before, infos[n - 1]);
            (after, places.push(Some(place)))
        } else {
            (before, places.push(None))
        }
    }
}

/// The nodes of the first `n` locations, made in a graph: the graph with
/// them, and for each location the places of the nodes of its frames.
pub open spec fn nodes_for_locations(
    g: Seq<NodeView>,
    locations: Seq<LocationView>,
    opt: OptionsView,
    n: nat,
) -> (Seq<NodeView>, Seq<Seq<Option<usize>>>)
    decreases n,
{
    if n == 0 {
        (g, Seq::empty())
    } else {
        let (before, table) = nodes_for_locations(g, locations, opt, (n - 1) as nat);
        let infos = location_infos(locations[n - 1], opt);
        let (after, places) = nodes_for_infos(before, infos, opt, infos.len());
        (after, table.push(places))
    }
}

/// The number of the frames of the first `n` locations, a location
/// without frames counted as one.
pub open spec fn frame_count(locations: Seq<LocationView>, n: nat) -> nat
    decreases n,
{
    if n == 0 {
        0
    } else {
        frame_count(locations, (n - 1) as nat) + (if locations[n - 1].line.len() == 0 {
            1
        } else {
            locations[n - 1].line.len()
        })
    }
}

/// Every place of a table of frames is a place of a node.
pub open spec fn places_in_range(table: Seq<Seq<Option<usize>>>, len: nat) -> bool {
    forall|i: int, k: int|
        0 <= i < table.len() && 0 <= k < table[i].len() ==> (#[trigger] table[i][k] matches Some(
            p,
        ) ==> p < len)
}

/// Whether two sums fit the machine integer.
pub open spec fn sum_fits(a: i64, b: i64) -> bool {
    i64::MIN <= a + b <= i64::MAX
}

/// The first `k` pairs of key and value of an entry of the text
/// labels, each as `key:value`.
pub open spec fn entry_pairs(e: (Seq<char>, Seq<Seq<char>>), k: nat) -> Seq<Seq<char>>
    decreases k,
{
    if k == 0 {
        Seq::empty()
    } else {
        entry_pairs(e, (k - 1) as nat).push(e.0 + ":"@ + e.1[k - 1])
    }
}

/// The pairs of key and value of the first `n` entries of the text
/// labels.
pub open spec fn label_pairs(m: Seq<(Seq<char>, Seq<Seq<char>>)>, n: nat) -> Seq<Seq<char>>
    decreases n,
{
    if n == 0 {
        Seq::empty()
    } else {
        label_pairs(m, (n - 1) as nat) + entry_pairs(m[n - 1], m[n - 1].1.len())
    }
}

/// The name of the label tag of a sample: the pairs of key and value of
/// its text labels, in the order of the keys, one on each line. It is
/// empty for a sample without text labels.
pub open spec fn joined_labels(s: SampleView) -> Seq<char> {
    join(label_pairs(s.label, s.label.len()), "\n"@)
}

/// The unit of the value at place `i` under a key: the unit at that
/// place, or the key where there is none.
pub open spec fn unit_at(units: Option<Seq<Seq<char>>>, i: int, key: Seq<char>) -> Seq<char> {
    match units {
        Some(list) if i < list.len() => list[i],
        _ => key,
    }
}

/// The name of a numeric tag: the value in decimal notation, then the
/// unit.
pub open spec fn tag_name(value: i64, unit: Seq<char>) -> Seq<char> {
    dec_text(value as int) + unit
}

/// The marks of the first `k` values of an entry of the numeric labels.
pub open spec fn entry_marks(
    e: (Seq<char>, Seq<i64>),
    units: Option<Seq<Seq<char>>>,
    k: nat,
) -> Seq<TagMark>
    decreases k,
{
    if k == 0 {
        Seq::empty()
    } else {
        entry_marks(e, units, (k - 1) as nat).push(
            (
                tag_name(e.1[k - 1], unit_at(units, k - 1, e.0)),
                unit_at(units, k - 1, e.0),
                e.1[k - 1],
            ),
        )
    }
}

/// The marks of the values of the first `n` entries of the numeric
/// labels of a sample.
pub open spec fn numeric_marks(s: SampleView, n: nat) -> Seq<TagMark>
    decreases n,
{
    if n == 0 {
        Seq::empty()
    } else {
        numeric_marks(s, (n - 1) as nat) + entry_marks(
            s.num_label[n - 1],
            lookup(s.num_unit_label, s.num_label[n - 1].0),
            s.num_label[n - 1].1.len(),
        )
    }
}

/// What a sample marks the nodes of its call stack with, as mathematics.
pub struct MarksView {
    pub joined: Seq<char>,
    pub numeric: Seq<TagMark>,
}

/// What a sample marks the nodes of its call stack with: the name of
/// its label tag, and the marks of its numeric tags.
#[derive(Debug, PartialEq, Eq)]
pub struct Marks {
    pub joined: String,
    pub numeric: Vec<(String, String, i64)>,
}

impl View for Marks {
    type V = MarksView;

    open spec fn view(&self) -> MarksView {
        MarksView { joined: self.joined@, numeric: self.numeric.deep_view() }
    }
}

/// The marks of a sample.
pub open spec fn marks_of(s: SampleView) -> MarksView {
    MarksView { joined: joined_labels(s), numeric: numeric_marks(s, s.num_label.len()) }
}

/// The numeric tags that belong to a label tag; none where no sample
/// made them yet.
pub open spec fn group_under(
    groups: Seq<(Seq<char>, Seq<(Seq<char>, TagView)>)>,
    name: Seq<char>,
) -> Seq<(Seq<char>, TagView)> {
    match lookup(groups, name) {
        Some(group) => group,
        None => Seq::empty(),
    }
}

/// The graph after a sample of weight `w` and divisor `dw` was counted
/// for the node at place `n`: for the exclusive values where `flat` is
/// set, for the inclusive values otherwise. The sample is counted for the
/// value of the node, for its label tag, where the sample has text labels,
/// and for each of its numeric tags among those that belong to that label
/// tag. There is none where a sum does not fit the machine integer.
pub open spec fn touched(
    g: Seq<NodeView>,
    n: usize,
    marks: MarksView,
    dw: i64,
    w: i64,
    flat: bool,
) -> Option<Seq<NodeView>> {
    let node = g[n as int];
    let counted = if flat {
        if sum_fits(node.flat, w) && sum_fits(node.flat_div, dw) {
            Some(
                NodeView {
                    flat: (node.flat + w) as i64,
                    flat_div: (node.flat_div + dw) as i64,
                    ..node
                },
            )
        } else {
            None
        }
    } else {
        if sum_fits(node.cum, w) && sum_fits(node.cum_div, dw) {
            Some(
                NodeView { cum: (node.cum + w) as i64, cum_div: (node.cum_div + dw) as i64, ..node },
            )
        } else {
            None
        }
    };
    let label_tags = if marks.joined.len() > 0 {
        bump_in(node.label_tags, (marks.joined, Seq::empty(), 0), dw, w, flat)
    } else {
        Some(node.label_tags)
    };
    let group = bump_all(
        group_under(node.numeric_tags, marks.joined),
        marks.numeric,
        dw,
        w,
        flat,
        marks.numeric.len(),
    );
    match (counted, label_tags, group) {
        (Some(node), Some(label_tags), Some(group)) => Some(
            g.update(
                n as int,
                NodeView {
                    label_tags,
                    numeric_tags: insert_model(node.numeric_tags, marks.joined, group),
                    ..node
                },
            ),
        ),
        _ => None,
    }
}

/// A change of the values of a node keeps the graph well-formed.
pub proof fn lemma_values_keep_wf(g: Seq<NodeView>, n: usize, node: NodeView)
    requires
        graph_wf(g),
        n < g.len(),
        node.index == g[n as int].index,
        node.info == g[n as int].info,
        node.function == g[n as int].function,
        node.in_edges == g[n as int].in_edges,
        node.out == g[n as int].out,
    ensures
        graph_wf(g.update(n as int, node)),
{
    let x = g.update(n as int, node);
    assert forall|a: usize, b: usize| a < x.len() && b < x.len() implies #[trigger] edge_under(
        x[a as int].out,
        b,
    ) == edge_under(x[b as int].in_edges, a) by {
        assert(edge_under(g[a as int].out, b) == edge_under(g[b as int].in_edges, a));
    }
    assert forall|i: int, j: int| 0 <= i < j < x.len() implies (#[trigger] x[i]).info != (
    #[trigger] x[j]).info by {
        assert(g[i].info != g[j].info);
    }
    assert forall|i: int| 0 <= i < x.len() implies (#[trigger] x[i]).index == i by {
        assert(g[i].index == i);
    }
    assert forall|i: int| 0 <= i < x.len() implies ((#[trigger] x[i]).function matches Some(f)
        ==> f < x.len() && x[f as int].info == function_entry(x[i].info)) by {
        assert(g[i].function matches Some(f) ==> f < g.len() && g[f as int].info
            == function_entry(g[i].info));
    }
    assert forall|a: int, b: usize| 0 <= a < x.len() && #[trigger] x[a].out.contains_key(
        b,
    ) implies b < x.len() && x[a].out[b].src == a && x[a].out[b].dest == b by {
        assert(g[a].out.contains_key(b));
    }
    assert forall|b: int, a: usize| 0 <= b < x.len() && #[trigger] x[b].in_edges.contains_key(
        a,
    ) implies a < x.len() by {
        assert(g[b].in_edges.contains_key(a));
    }
}

/// One frame of a walk from the root of a call stack to its leaf: the
/// place of its node, or nothing where the node is not kept, and whether
/// the frame was inlined into its caller.
pub type Frame = (Option<usize>, bool);

/// The frames of a location, the caller first. All frames but the
/// caller were inlined.
pub open spec fn frames_of(places: Seq<Option<usize>>) -> Seq<Frame> {
    Seq::new(places.len(), |t: int| (places[places.len() - 1 - t], t != 0))
}

/// The frames of the last `n` locations of a call stack, the root first.
/// A location id that the table of locations does not hold gives no frame.
pub open spec fn stack_frames(
    stack: Seq<u64>,
    ids: Seq<u64>,
    table: Seq<Seq<Option<usize>>>,
    n: nat,
) -> Seq<Frame>
    decreases n,
{
    if n == 0 {
        Seq::empty()
    } else {
        stack_frames(stack, ids, table, (n - 1) as nat) + (match last_position(
            ids,
            stack[stack.len() - n],
        ) {
            Some(p) if p < table.len() => frames_of(table[p]),
            _ => Seq::empty(),
        })
    }
}

/// Where a walk stands: the graph, the node of the frame before, whether
/// a node that is not kept was passed since, and the nodes and edges that
/// this sample was counted for.
pub struct WalkState {
    pub g: Seq<NodeView>,
    pub parent: Option<usize>,
    pub residual: bool,
    pub seen_nodes: Seq<usize>,
    pub seen_edges: Seq<(usize, usize)>,
}

/// The walk after one more frame. A frame without node makes the next
/// edge residual. A frame with a node counts the sample for the inclusive
/// value of the node, once, and for the edge from the node before to this
/// node, once, where the two are not the same node.
pub open spec fn walk_step(
    st: WalkState,
    frame: Frame,
    marks: MarksView,
    dw: i64,
    w: i64,
) -> Option<WalkState> {
    match frame.0 {
        None => Some(WalkState { residual: true, ..st }),
        Some(n) => {
            let counted = if st.seen_nodes.contains(n) {
                Some(st.g)
            } else {
                touched(st.g, n, marks, dw, w, false)
            };
            let seen_nodes = if st.seen_nodes.contains(n) {
                st.seen_nodes
            } else {
                st.seen_nodes.push(n)
            };
            match counted {
                None => None,
                Some(g) => match st.parent {
                    Some(caller) if caller != n && !st.seen_edges.contains((caller, n)) => {
                        if edge_sum_fits(edge_under(g[caller as int].out, n), dw, w) {
                            Some(
                                WalkState {
                                    g: with_edge(g, caller, n, dw, w, st.residual, frame.1),
                                    parent: Some(n),
                                    residual: false,
                                    seen_nodes,
                                    seen_edges: st.seen_edges.push((caller, n)),
                                },
                            )
                        } else {
                            None
                        }
                    },
                    _ => Some(
                        WalkState { g, parent: Some(n), residual: false, seen_nodes, ..st },
                    ),
                },
            }
        },
    }
}

/// The walk after the first `n` frames.
pub open spec fn walked(
    st: WalkState,
    frames: Seq<Frame>,
    marks: MarksView,
    dw: i64,
    w: i64,
    n: nat,
) -> Option<WalkState>
    decreases n,
{
    if n == 0 {
        Some(st)
    } else {
        match walked(st, frames, marks, dw, w, (n - 1) as nat) {
            Some(before) => walk_step(before, frames[n - 1], marks, dw, w),
            None => None,
        }
    }
}

/// The graph after one sample: the sample is counted along the walk of
/// its frames, and for the exclusive value of its leaf, where the leaf is
/// kept. There is none where a sum does not fit the machine integer.
pub open spec fn with_sample(
    g: Seq<NodeView>,
    frames: Seq<Frame>,
    marks: MarksView,
    dw: i64,
    w: i64,
) -> Option<Seq<NodeView>> {
    let start = WalkState {
        g,
        parent: None,
        residual: false,
        seen_nodes: Seq::empty(),
        seen_edges: Seq::empty(),
    };
    match walked(start, frames, marks, dw, w, frames.len()) {
        Some(st) => match st.parent {
            Some(leaf) if !st.residual => touched(st.g, leaf, marks, dw, w, true),
            _ => Some(st.g),
        },
        None => None,
    }
}

/// The weight of a sample: its value at the place that the options
/// name, 0 where it has no value there.
pub open spec fn weight_of(s: SampleView, opt: OptionsView) -> i64 {
    if opt.sample_value < s.value.len() {
        s.value[opt.sample_value as int]
    } else {
        0
    }
}

/// The divisor of a sample: its value at the place that the options
/// name for it, 0 where they name none or it has no value there.
pub open spec fn divisor_of(s: SampleView, opt: OptionsView) -> i64 {
    match opt.sample_mean_divisor {
        Some(i) if i < s.value.len() => s.value[i as int],
        _ => 0,
    }
}

/// The graph after the first `n` samples. A sample of negative weight
/// is left out where the options say so.
pub open spec fn with_samples(
    g: Seq<NodeView>,
    samples: Seq<SampleView>,
    ids: Seq<u64>,
    table: Seq<Seq<Option<usize>>>,
    opt: OptionsView,
    n: nat,
) -> Option<Seq<NodeView>>
    decreases n,
{
    if n == 0 {
        Some(g)
    } else {
        match with_samples(g, samples, ids, table, opt, (n - 1) as nat) {
            Some(before) => {
                let s = samples[n - 1];
                if opt.drop_negative && weight_of(s, opt) < 0 {
                    Some(before)
                } else {
                    let stack = location_ids(s.location);
                    with_sample(
                        before,
                        stack_frames(stack, ids, table, stack.len()),
                        marks_of(s),
                        divisor_of(s, opt),
                        weight_of(s, opt),
                    )
                }
            },
            None => None,
        }
    }
}

/// The graph of a profile: the nodes of its locations, and its samples
/// counted for them. There is none where a sum does not fit the machine
/// integer, or the nodes are more than the machine can count.
pub open spec fn graph_of(p: ProfileView, opt: OptionsView) -> Option<Seq<NodeView>> {
    if 2 * frame_count(p.location, p.location.len()) > usize::MAX {
        None
    } else {
        let (g, table) = nodes_for_locations(Seq::empty(), p.location, opt, p.location.len());
        with_samples(g, p.sample, location_ids(p.location), table, opt, p.sample.len())
    }
}

/// The error of a sum that does not fit the machine integer.
fn overflow(reason: &str) -> (e: RockError)
    ensures
        e.kind_of() == ErrorKind::Unknown,
{
    RockError::new(ErrorKind::Unknown, reason)
}

/// The object file of a location.
fn object_file_of(l: &Location, opt: &Options) -> (r: String)
    ensures
        r@ == object_file(l@, opt@),
{
    match &l.mapping {
        Some(m) => if opt.obj_names {
            m.filename.clone()
        } else {
            String::new()
        },
        None => String::new(),
    }
}

/// The attributes of the node of frame `k` of a location.
fn frame_node_info(l: &Location, k: usize, opt: &Options) -> (r: NodeInfo)
    requires
        k < l.line.len(),
    ensures
        r@ == frame_info(l@, k as int, opt@),
{
    let ln = &l.line[k];
    assert(l@.line[k as int] == ln@);
    if ln.function.is_default() {
        let mut info = NodeInfo::default();
        info.address = l.address;
        info.objfile = object_file_of(l, opt);
        info
    } else {
        NodeInfo {
            name: ln.function.name.clone(),
            orig_name: if opt.orig_fn_names {
                ln.function.system_name.clone()
            } else {
                String::new()
            },
            address: l.address,
            file: ln.function.filename.clone(),
            start_line: ln.function.start_line,
            lineno: ln.line,
            objfile: object_file_of(l, opt),
        }
    }
}

/// The attributes of the nodes of a location.
fn location_info_list(l: &Location, opt: &Options) -> (r: Vec<NodeInfo>)
    ensures
        views(r@) == location_infos(l@, opt@),
{
    let mut out: Vec<NodeInfo> = Vec::new();
    if l.line.len() == 0 {
        let mut info = NodeInfo::default();
        info.address = l.address;
        info.objfile = object_file_of(l, opt);
        out.push(info);
        assert(views(out@) =~= location_infos(l@, opt@));
        return out;
    }
    let mut k: usize = 0;
    while k < l.line.len()
        invariant
            k <= l.line.len(),
            out.len() == k,
            forall|j: int| 0 <= j < k ==> out[j]@ == frame_info(l@, j, opt@),
        decreases l.line.len() - k,
    {
        out.push(frame_node_info(l, k, opt));
        k += 1;
    }
    assert(views(out@) =~= location_infos(l@, opt@));
    out
}

/// Whether the options keep the nodes with these attributes.
fn is_kept(info: &NodeInfo, opt: &Options) -> (r: bool)
    ensures
        r == kept(info@, opt@),
{
    match &opt.kept_nodes {
        None => true,
        Some(list) => {
            let mut i: usize = 0;
            assert(opt@.kept_nodes == Some(views(list@)));
            while i < list.len()
                invariant
                    i <= list.len(),
                    opt@.kept_nodes == Some(views(list@)),
                    forall|j: int| 0 <= j < i ==> views(list@)[j] != info@,
                decreases list.len() - i,
            {
                assert(views(list@)[i as int] == list[i as int]@);
                if list[i].same(info) {
                    assert(views(list@).contains(info@));
                    return true;
                }
                i += 1;
            }
            false
        },
    }
}

/// Whether a list holds a place.
fn has_place(list: &Vec<usize>, x: usize) -> (r: bool)
    ensures
        r == list@.contains(x),
{
    let mut i: usize = 0;
    while i < list.len()
        invariant
            i <= list.len(),
            forall|j: int| 0 <= j < i ==> list[j] != x,
        decreases list.len() - i,
    {
        if list[i] == x {
            return true;
        }
        i += 1;
    }
    false
}

/// Whether a list holds a pair of places.
fn has_pair(list: &Vec<(usize, usize)>, a: usize, b: usize) -> (r: bool)
    ensures
        r == list@.contains((a, b)),
{
    let mut i: usize = 0;
    while i < list.len()
        invariant
            i <= list.len(),
            forall|j: int| 0 <= j < i ==> list[j] != (a, b),
        decreases list.len() - i,
    {
        if list[i].0 == a && list[i].1 == b {
            return true;
        }
        i += 1;
    }
    false
}

/// Once a walk has failed it stays failed.
proof fn lemma_walk_stays_failed(
    st: WalkState,
    frames: Seq<Frame>,
    marks: MarksView,
    dw: i64,
    w: i64,
    n: nat,
    m: nat,
)
    requires
        n <= m,
        walked(st, frames, marks, dw, w, n).is_none(),
    ensures
        walked(st, frames, marks, dw, w, m).is_none(),
    decreases m,
{
    if n < m {
        lemma_walk_stays_failed(st, frames, marks, dw, w, n, (m - 1) as nat);
    }
}

/// Once a sample has failed the graph stays without value.
proof fn lemma_samples_stay_failed(
    g: Seq<NodeView>,
    samples: Seq<SampleView>,
    ids: Seq<u64>,
    table: Seq<Seq<Option<usize>>>,
    opt: OptionsView,
    n: nat,
    m: nat,
)
    requires
        n <= m,
        with_samples(g, samples, ids, table, opt, n).is_none(),
    ensures
        with_samples(g, samples, ids, table, opt, m).is_none(),
    decreases m,
{
    if n < m {
        lemma_samples_stay_failed(g, samples, ids, table, opt, n, (m - 1) as nat);
    }
}

/// Every place of a list of frames is a place of a node.
pub open spec fn frames_in_range(frames: Seq<Frame>, len: nat) -> bool {
    forall|i: int| 0 <= i < frames.len() ==> ((#[trigger] frames[i]).0 matches Some(p) ==> p < len)
}

impl Graph {
    /// Counts a sample for the node at place `n`.
    fn touch(&mut self, n: usize, marks: &Marks, dw: i64, w: i64, flat: bool) -> (r: Result<
        (),
        RockError,
    >)
        requires
            graph_wf(old(self)@),
            n < old(self)@.len(),
        ensures
            graph_wf(final(self)@),
            final(self)@.len() == old(self)@.len(),
            match touched(old(self)@, n, marks@, dw, w, flat) {
                Some(g) => r is Ok && final(self)@ == g,
                None => r matches Err(e) && e.kind_of() == ErrorKind::Unknown,
            },
    {
        let ghost g0 = self@;
        let ghost node0 = self@[n as int];
        assert(node0 == self.nodes[n as int]@);
        let sums = if flat {
            (self.nodes[n].flat.checked_add(w), self.nodes[n].flat_div.checked_add(dw))
        } else {
            (self.nodes[n].cum.checked_add(w), self.nodes[n].cum_div.checked_add(dw))
        };
        let (a, b) = match sums {
            (Some(a), Some(b)) => (a, b),
            _ => {
                return Err(overflow("the value of a node does not fit"));
            },
        };
        let label_result = if marks.joined.as_str().is_empty() {
            Ok(())
        } else {
            bump_tag(&mut self.nodes[n].label_tags, marks.joined.as_str(), "", 0, dw, w, flat)
        };
        proof {
            lemma_empty_text();
            assert(self@ =~= g0.update(n as int, self@[n as int]));
            lemma_values_keep_wf(g0, n, self@[n as int]);
        }
        match label_result {
            Ok(()) => {},
            Err(e) => {
                return Err(e);
            },
        }
        let ghost g1 = self@;
        let (i, found) = self.nodes[n].numeric_tags.position(marks.joined.as_str());
        let mut group = if found {
            self.nodes[n].numeric_tags.replace_value_at(i, KeyedList::new())
        } else {
            KeyedList::new()
        };
        assert(group.deep_view() == group_under(node0.numeric_tags, marks.joined@));
        let ghost group0 = group.model();
        let group_result = bump_tags(&mut group, &marks.numeric, dw, w, flat);
        proof {
            assert(self@ =~= g0.update(n as int, self@[n as int]));
            lemma_values_keep_wf(g0, n, self@[n as int]);
        }
        match group_result {
            Ok(()) => {},
            Err(e) => {
                return Err(e);
            },
        }
        proof {
            let held = self@[n as int].numeric_tags;
            if found {
                assert(held[i as int].0 == marks.joined@);
                crate::keyed::lemma_key_index_unique(held, marks.joined@, i as int);
                crate::keyed::lemma_key_index_unique(
                    node0.numeric_tags,
                    marks.joined@,
                    i as int,
                );
                assert(held.update(i as int, (marks.joined@, group.model()))
                    =~= node0.numeric_tags.update(i as int, (marks.joined@, group.model())));
                assert(insert_model(held, marks.joined@, group.model()) =~= insert_model(
                    node0.numeric_tags,
                    marks.joined@,
                    group.model(),
                ));
            }
        }
        self.nodes[n].numeric_tags.insert(marks.joined.clone(), group);
        if flat {
            self.nodes[n].flat = a;
            self.nodes[n].flat_div = b;
        } else {
            self.nodes[n].cum = a;
            self.nodes[n].cum_div = b;
        }
        proof {
            assert(self@ =~= g0.update(n as int, self@[n as int]));
            lemma_values_keep_wf(g0, n, self@[n as int]);
        }
        Ok(())
    }

    /// Whether a contribution to the edge from `src` to `dest` fits.
    fn edge_fits(&self, src: usize, dest: usize, dv: i64, v: i64) -> (r: bool)
        requires
            src < self@.len(),
        ensures
            r == edge_sum_fits(edge_under(self@[src as int].out, dest), dv, v),
    {
        assert(self@[src as int] == self.nodes[src as int]@);
        match self.nodes[src].out.get(dest) {
            Some(e) => e.weight.checked_add(v).is_some() && e.weight_div.checked_add(dv).is_some(),
            None => true,
        }
    }

    /// Counts one sample of weight `w` and divisor `dw` along the walk of
    /// its frames, the root first. It fails with `Unknown` where a sum does
    /// not fit the machine integer; the graph then holds what was counted
    /// before.
    pub fn add_sample(&mut self, frames: &Vec<Frame>, marks: &Marks, dw: i64, w: i64) -> (r:
        Result<(), RockError>)
        requires
            graph_wf(old(self)@),
            frames_in_range(frames@, old(self)@.len()),
        ensures
            graph_wf(final(self)@),
            final(self)@.len() == old(self)@.len(),
            match with_sample(old(self)@, frames@, marks@, dw, w) {
                Some(g) => r is Ok && final(self)@ == g,
                None => r matches Err(e) && e.kind_of() == ErrorKind::Unknown,
            },
    {
        let ghost start = WalkState {
            g: self@,
            parent: None,
            residual: false,
            seen_nodes: Seq::empty(),
            seen_edges: Seq::empty(),
        };
        let ghost len = self@.len();
        let mut parent: Option<usize> = None;
        let mut residual = false;
        let mut seen_nodes: Vec<usize> = Vec::new();
        let mut seen_edges: Vec<(usize, usize)> = Vec::new();
        let mut i: usize = 0;
        while i < frames.len()
            invariant
                i <= frames.len(),
                graph_wf(self@),
                self@.len() == len,
                len == old(self)@.len(),
                start.g == old(self)@,
                start == (WalkState {
                    g: old(self)@,
                    parent: None,
                    residual: false,
                    seen_nodes: Seq::empty(),
                    seen_edges: Seq::empty(),
                }),
                frames_in_range(frames@, len),
                parent matches Some(p) ==> p < len,
                walked(start, frames@, marks@, dw, w, i as nat) == Some(
                    WalkState {
                        g: self@,
                        parent,
                        residual,
                        seen_nodes: seen_nodes@,
                        seen_edges: seen_edges@,
                    },
                ),
            decreases frames.len() - i,
        {
            let ghost here = WalkState {
                g: self@,
                parent,
                residual,
                seen_nodes: seen_nodes@,
                seen_edges: seen_edges@,
            };
            proof {
                if walk_step(here, frames[i as int], marks@, dw, w).is_none() {
                    lemma_walk_stays_failed(
                        start,
                        frames@,
                        marks@,
                        dw,
                        w,
                        (i + 1) as nat,
                        frames@.len(),
                    );
                }
            }
            self.step_walk(
                frames[i],
                marks,
                dw,
                w,
                &mut parent,
                &mut residual,
                &mut seen_nodes,
                &mut seen_edges,
            )?;
            i += 1;
        }
        match parent {
            Some(leaf) => {
                if !residual {
                    self.touch(leaf, marks, dw, w, true)?;
                }
            },
            None => {},
        }
        Ok(())
    }

    /// Takes a walk one frame on.
    fn step_walk(
        &mut self,
        frame: Frame,
        marks: &Marks,
        dw: i64,
        w: i64,
        parent: &mut Option<usize>,
        residual: &mut bool,
        seen_nodes: &mut Vec<usize>,
        seen_edges: &mut Vec<(usize, usize)>,
    ) -> (r: Result<(), RockError>)
        requires
            graph_wf(old(self)@),
            frame.0 matches Some(n) ==> n < old(self)@.len(),
            *old(parent) matches Some(p) ==> p < old(self)@.len(),
        ensures
            graph_wf(final(self)@),
            final(self)@.len() == old(self)@.len(),
            *final(parent) matches Some(p) ==> p < old(self)@.len(),
            match walk_step(
                WalkState {
                    g: old(self)@,
                    parent: *old(parent),
                    residual: *old(residual),
                    seen_nodes: old(seen_nodes)@,
                    seen_edges: old(seen_edges)@,
                },
                frame,
                marks@,
                dw,
                w,
            ) {
                Some(st) => r is Ok && st == (WalkState {
                    g: final(self)@,
                    parent: *final(parent),
                    residual: *final(residual),
                    seen_nodes: final(seen_nodes)@,
                    seen_edges: final(seen_edges)@,
                }),
                None => r matches Err(e) && e.kind_of() == ErrorKind::Unknown,
            },
    {
        match frame.0 {
            None => {
                *residual = true;
            },
            Some(n) => {
                if !has_place(seen_nodes, n) {
                    self.touch(n, marks, dw, w, false)?;
                    seen_nodes.push(n);
                }
                let makes_edge = match *parent {
                    Some(caller) => caller != n && !has_pair(seen_edges, caller, n),
                    None => false,
                };
                if makes_edge {
                    let caller = parent.unwrap();
                    if !self.edge_fits(caller, n, dw, w) {
                        return Err(overflow("the weight of an edge does not fit"));
                    }
                    self.add_edge(caller, n, dw, w, *residual, frame.1);
                    seen_edges.push((caller, n));
                }
                *parent = Some(n);
                *residual = false;
            },
        }
        Ok(())
    }

    /// Makes the nodes of a list of attributes.
    fn nodes_for(&mut self, infos: &Vec<NodeInfo>, opt: &Options) -> (places: Vec<Option<usize>>)
        requires
            graph_wf(old(self)@),
            old(self)@.len() + 2 * infos.len() <= usize::MAX,
        ensures
            graph_wf(final(self)@),
            (final(self)@, places@) == nodes_for_infos(
                old(self)@,
                views(infos@),
                opt@,
                infos.len() as nat,
            ),
            old(self)@.len() <= final(self)@.len() <= old(self)@.len() + 2 * infos.len(),
            forall|k: int|
                0 <= k < places.len() ==> (#[trigger] places[k] matches Some(p) ==> p
                    < final(self)@.len()),
    {
        let mut places: Vec<Option<usize>> = Vec::new();
        let mut i: usize = 0;
        while i < infos.len()
            invariant
                i <= infos.len(),
                graph_wf(self@),
                old(self)@.len() + 2 * infos.len() <= usize::MAX,
                old(self)@.len() <= self@.len() <= old(self)@.len() + 2 * i,
                (self@, places@) == nodes_for_infos(old(self)@, views(infos@), opt@, i as nat),
                forall|k: int|
                    0 <= k < places.len() ==> (#[trigger] places[k] matches Some(p) ==> p
                        < self@.len()),
            decreases infos.len() - i,
        {
            assert(views(infos@)[i as int] == infos[i as int]@);
            if is_kept(&infos[i], opt) {
                let place = self.find_or_insert_node(infos[i].clone());
                places.push(Some(place));
            } else {
                places.push(None);
            }
            i += 1;
        }
        places
    }

    /// Makes the nodes of all the locations of a profile: one node for
    /// each frame of a location, one node for a location without frames,
    /// nodes with the same attributes being one node. It gives for each
    /// location the places of the nodes of its frames, nothing standing for
    /// a node that the options do not keep.
    pub fn create_nodes(&mut self, profile: &Profile, opt: &Options) -> (table: Vec<
        Vec<Option<usize>>,
    >)
        requires
            graph_wf(old(self)@),
            old(self)@.len() + 2 * frame_count(profile@.location, profile@.location.len())
                <= usize::MAX,
        ensures
            graph_wf(final(self)@),
            (final(self)@, table.deep_view()) == nodes_for_locations(
                old(self)@,
                profile@.location,
                opt@,
                profile@.location.len(),
            ),
            places_in_range(table.deep_view(), final(self)@.len()),
    {
        let ghost locations = profile@.location;
        let ghost total = frame_count(locations, locations.len());
        let mut table: Vec<Vec<Option<usize>>> = Vec::new();
        let mut i: usize = 0;
        assert(table.deep_view() =~= Seq::<Seq<Option<usize>>>::empty());
        while i < profile.location.len()
            invariant
                i <= profile.location.len(),
                locations == profile@.location,
                locations.len() == profile.location.len(),
                total == frame_count(locations, locations.len()),
                graph_wf(self@),
                old(self)@.len() + 2 * total <= usize::MAX,
                self@.len() <= old(self)@.len() + 2 * frame_count(locations, i as nat),
                (self@, table.deep_view()) == nodes_for_locations(
                    old(self)@,
                    locations,
                    opt@,
                    i as nat,
                ),
                places_in_range(table.deep_view(), self@.len()),
            decreases profile.location.len() - i,
        {
            let l = &profile.location[i];
            assert(locations[i as int] == l@);
            let infos = location_info_list(l, opt);
            proof {
                lemma_frame_count_grows(locations, (i + 1) as nat, locations.len());
                assert(infos.len() == views(infos@).len());
            }
            let ghost before = table.deep_view();
            let ghost len_before = self@.len();
            let places = self.nodes_for(&infos, opt);
            table.push(places);
            proof {
                assert(places.deep_view() =~= places@);
                assert(table.deep_view() =~= before.push(places@));
                assert forall|a: int, k: int|
                    0 <= a < table.deep_view().len() && 0 <= k
                        < table.deep_view()[a].len() implies (
                #[trigger] table.deep_view()[a][k] matches Some(p) ==> p < self@.len()) by {
                    if a < before.len() {
                        assert(before[a][k] matches Some(p) ==> p < len_before);
                    } else {
                        assert(places@[k] matches Some(p) ==> p < self@.len());
                    }
                }
            }
            i += 1;
        }
        table
    }

    /// The frames of the call stack of a sample, the root first.
    fn stack_of(
        s: &Sample,
        index: &IdIndex,
        table: &Vec<Vec<Option<usize>>>,
        ids: Ghost<Seq<u64>>,
        len: Ghost<nat>,
    ) -> (frames: Vec<Frame>)
        requires
            forall|id: u64| index.find(id) == last_position(ids@, id),
            places_in_range(table.deep_view(), len@),
        ensures
            frames@ == stack_frames(
                location_ids(s@.location),
                ids@,
                table.deep_view(),
                s@.location.len(),
            ),
            frames_in_range(frames@, len@),
    {
        let ghost stack = location_ids(s@.location);
        let mut frames: Vec<Frame> = Vec::new();
        let n = s.location.len();
        let mut i: usize = 0;
        while i < n
            invariant
                i <= n,
                n == s.location.len(),
                stack == location_ids(s@.location),
                stack.len() == n,
                forall|id: u64| index.find(id) == last_position(ids@, id),
                places_in_range(table.deep_view(), len@),
                frames@ == stack_frames(stack, ids@, table.deep_view(), i as nat),
                frames_in_range(frames@, len@),
            decreases n - i,
        {
            let l = &s.location[n - 1 - i];
            assert(stack[n - 1 - i] == l.id) by {
                assert(s@.location[n - 1 - i] == s.location[n - 1 - i]@);
            }
            proof {
                lemma_last_position(ids@, l.id);
                assert(index.find(l.id) == last_position(ids@, l.id));
            }
            let ghost before = frames@;
            match index.get(l.id) {
                Some(p) => {
                    if p < table.len() {
                        let places = &table[p];
                        assert(table.deep_view()[p as int] =~= places@);
                        let m = places.len();
                        let mut t: usize = 0;
                        while t < m
                            invariant
                                t <= m,
                                m == places.len(),
                                p < table.len(),
                                table.deep_view()[p as int] == places@,
                                places_in_range(table.deep_view(), len@),
                                frames@ == before + frames_of(places@).take(t as int),
                                frames_in_range(before, len@),
                            decreases m - t,
                        {
                            frames.push((places[m - 1 - t], t != 0));
                            t += 1;
                            assert(frames@ =~= before + frames_of(places@).take(t as int));
                        }
                        proof {
                            assert(frames_of(places@).take(m as int) =~= frames_of(places@));
                            assert forall|x: int| 0 <= x < frames@.len() implies ((
                            #[trigger] frames@[x]).0 matches Some(q) ==> q < len@) by {
                                if x >= before.len() {
                                    let k = m - 1 - (x - before.len());
                                    assert(table.deep_view()[p as int][k] matches Some(q) ==> q
                                        < len@);
                                } else {
                                    assert(before[x].0 matches Some(q) ==> q < len@);
                                }
                            }
                        }
                    } else {
                        assert(frames@ =~= before + Seq::<Frame>::empty());
                    }
                },
                None => {
                    assert(frames@ =~= before + Seq::<Frame>::empty());
                },
            }
            i += 1;
        }
        frames
    }
}

/// The count of frames grows with the number of locations.
proof fn lemma_frame_count_grows(locations: Seq<LocationView>, n: nat, m: nat)
    requires
        n <= m,
    ensures
        frame_count(locations, n) <= frame_count(locations, m),
    decreases m,
{
    if n < m {
        lemma_frame_count_grows(locations, n, (m - 1) as nat);
    }
}

/// The empty text is the text without characters.
proof fn lemma_empty_text()
    ensures
        ""@ == Seq::<char>::empty(),
{
    reveal_strlit("");
    assert(""@ =~= Seq::<char>::empty());
}

/// The marks of a sample.
pub fn marks_of_sample(s: &Sample) -> (r: Marks)
    ensures
        r@ == marks_of(s@),
{
    let mut pairs: Vec<String> = Vec::new();
    let n = s.label.len();
    let mut i: usize = 0;
    assert(pairs.deep_view() =~= label_pairs(s@.label, 0));
    while i < n
        invariant
            i <= n,
            n == s@.label.len(),
            pairs.deep_view() == label_pairs(s@.label, i as nat),
        decreases n - i,
    {
        let key = s.label.key_at(i);
        let values = s.label.value_at(i);
        let ghost e = s@.label[i as int];
        let ghost base = pairs.deep_view();
        assert(values.deep_view().len() == values.len());
        let mut k: usize = 0;
        assert(pairs.deep_view() =~= base + entry_pairs(e, 0));
        while k < values.len()
            invariant
                k <= values.len(),
                e.0 == key@,
                e.1 == values.deep_view(),
                pairs.deep_view() == base + entry_pairs(e, k as nat),
            decreases values.len() - k,
        {
            let mut pair = key.clone();
            pair.append(":");
            pair.append(values[k].as_str());
            assert(values.deep_view()[k as int] == values[k as int]@);
            let ghost before = pairs.deep_view();
            pairs.push(pair);
            assert(pairs.deep_view() =~= before.push(pair@));
            assert(pairs.deep_view() =~= base + entry_pairs(e, (k + 1) as nat));
            k += 1;
        }
        i += 1;
    }
    let joined = join_texts(&pairs, "\n");
    let mut numeric: Vec<(String, String, i64)> = Vec::new();
    let m = s.num_label.len();
    let mut i: usize = 0;
    assert(numeric.deep_view() =~= numeric_marks(s@, 0));
    while i < m
        invariant
            i <= m,
            m == s@.num_label.len(),
            numeric.deep_view() == numeric_marks(s@, i as nat),
        decreases m - i,
    {
        let key = s.num_label.key_at(i);
        let values = s.num_label.value_at(i);
        let units = s.num_unit_label.get(key.as_str());
        let ghost e = s@.num_label[i as int];
        let ghost unit_list = lookup(s@.num_unit_label, e.0);
        let ghost base = numeric.deep_view();
        assert(values.deep_view() =~= values@);
        let mut k: usize = 0;
        assert(numeric.deep_view() =~= base + entry_marks(e, unit_list, 0));
        while k < values.len()
            invariant
                k <= values.len(),
                e.0 == key@,
                e.1 == values@,
                match units {
                    Some(list) => unit_list == Some(list.deep_view()),
                    None => unit_list.is_none(),
                },
                numeric.deep_view() == base + entry_marks(e, unit_list, k as nat),
            decreases values.len() - k,
        {
            let unit = match units {
                Some(list) => {
                    assert(list.deep_view().len() == list.len());
                    if k < list.len() {
                        assert(list.deep_view()[k as int] == list[k as int]@);
                        list[k].clone()
                    } else {
                        key.clone()
                    }
                },
                None => key.clone(),
            };
            let mut name = signed_string(values[k]);
            name.append(unit.as_str());
            let ghost before = numeric.deep_view();
            let ghost mark = (name@, unit@, values[k as int]);
            numeric.push((name, unit, values[k]));
            assert(numeric.deep_view() =~= before.push(mark));
            assert(numeric.deep_view() =~= base + entry_marks(e, unit_list, (k + 1) as nat));
            k += 1;
        }
        i += 1;
    }
    Marks { joined, numeric }
}

/// The number of the frames of a list of locations, where the machine
/// can count them.
fn count_frames(locations: &Vec<Location>) -> (r: Option<usize>)
    ensures
        match r {
            Some(c) => c == frame_count(views(locations@), locations.len() as nat),
            None => frame_count(views(locations@), locations.len() as nat) > usize::MAX,
        },
{
    let mut count: usize = 0;
    let mut i: usize = 0;
    while i < locations.len()
        invariant
            i <= locations.len(),
            count == frame_count(views(locations@), i as nat),
        decreases locations.len() - i,
    {
        assert(views(locations@)[i as int] == locations[i as int]@);
        assert(locations[i as int]@.line.len() == locations[i as int].line.len());
        let n = if locations[i].line.len() == 0 {
            1
        } else {
            locations[i].line.len()
        };
        match count.checked_add(n) {
            Some(c) => {
                count = c;
            },
            None => {
                proof {
                    lemma_frame_count_grows(
                        views(locations@),
                        (i + 1) as nat,
                        locations.len() as nat,
                    );
                }
                return None;
            },
        }
        i += 1;
    }
    Some(count)
}

/// The weight of a sample.
fn sample_weight(s: &Sample, opt: &Options) -> (w: i64)
    ensures
        w == weight_of(s@, opt@),
{
    if opt.sample_value < s.value.len() {
        s.value[opt.sample_value]
    } else {
        0
    }
}

/// The divisor of a sample.
fn sample_divisor(s: &Sample, opt: &Options) -> (dw: i64)
    ensures
        dw == divisor_of(s@, opt@),
{
    match opt.sample_mean_divisor {
        Some(i) => if i < s.value.len() {
            s.value[i]
        } else {
            0
        },
        None => 0,
    }
}

impl Graph {
    /// The graph of a profile: one node for each frame of each location,
    /// nodes with the same attributes being one node, and every sample
    /// counted for the inclusive value of each node of its call stack, for
    /// the exclusive value of its leaf, and for the edge from each caller to
    /// its callee. Every edge is the same in the tables at its two ends. It
    /// fails with `Unknown` where a sum does not fit the machine integer.
    pub fn new(profile: &Profile, opt: &Options) -> (r: Result<Graph, RockError>)
        ensures
            match graph_of(profile@, opt@) {
                Some(g) => r matches Ok(x) && x@ == g && graph_wf(g),
                None => r matches Err(e) && e.kind_of() == ErrorKind::Unknown,
            },
    {
        assert(profile@.location.len() == profile.location.len());
        match count_frames(&profile.location) {
            Some(c) => {
                if c > usize::MAX / 2 {
                    return Err(overflow("the nodes are more than can be counted"));
                }
            },
            None => {
                return Err(overflow("the nodes are more than can be counted"));
            },
        }
        let mut g = Graph::empty();
        let table = g.create_nodes(profile, opt);
        let ids = list_location_ids(&profile.location);
        let index = IdIndex::build(&ids);
        let ghost start = g@;
        let ghost samples = profile@.sample;
        let mut i: usize = 0;
        while i < profile.sample.len()
            invariant
                i <= profile.sample.len(),
                samples == profile@.sample,
                samples.len() == profile.sample.len(),
                2 * frame_count(profile@.location, profile@.location.len()) <= usize::MAX,
                (start, table.deep_view()) == nodes_for_locations(
                    Seq::empty(),
                    profile@.location,
                    opt@,
                    profile@.location.len(),
                ),
                ids@ == location_ids(profile@.location),
                graph_wf(g@),
                g@.len() == start.len(),
                places_in_range(table.deep_view(), start.len()),
                forall|id: u64| index.find(id) == last_position(ids@, id),
                with_samples(start, samples, ids@, table.deep_view(), opt@, i as nat) == Some(g@),
            decreases profile.sample.len() - i,
        {
            let s = &profile.sample[i];
            assert(samples[i as int] == s@);
            let w = sample_weight(s, opt);
            let dw = sample_divisor(s, opt);
            if !(opt.drop_negative && w < 0) {
                let frames = Graph::stack_of(s, &index, &table, Ghost(ids@), Ghost(start.len()));
                let marks = marks_of_sample(s);
                proof {
                    if with_sample(g@, frames@, marks@, dw, w).is_none() {
                        lemma_samples_stay_failed(
                            start,
                            samples,
                            ids@,
                            table.deep_view(),
                            opt@,
                            (i + 1) as nat,
                            samples.len(),
                        );
                    }
                }
                g.add_sample(&frames, &marks, dw, w)?;
            }
            i += 1;
        }
        Ok(g)
    }
}

} // verus!
