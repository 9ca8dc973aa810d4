//! Nodes, edges and tags.

use crate::graph::info::{NodeInfo, NodeInfoView};
use crate::errors::{ErrorKind, RockError};
use crate::keyed::{insert_model, lookup, KeyedList};
use vstd::string::StringExecFns;
use std::collections::HashMap;
use vstd::prelude::*;
use vstd::std_specs::hash::*;

verus! {

broadcast use group_hash_axioms;

/// The quotient of a division that rounds towards zero.
pub open spec fn quotient(x: int, d: int) -> int {
    if x == 0 {
        0
    } else if x > 0 && d > 0 {
        x / d
    } else if x < 0 && d < 0 {
        ((x * -1) / (d * -1))
    } else if x < 0 {
        ((x * -1) / d) * -1
    } else {
        (x / (d * -1)) * -1
    }
}

/// A total, or its mean where a divisor is there.
pub open spec fn mean(total: i64, divisor: i64) -> int {
    if divisor == 0 {
        total as int
    } else {
        quotient(total as int, divisor as int)
    }
}

/// Whether the mean fits the machine integer: all but the least integer
/// divided by -1.
pub open spec fn mean_fits(total: i64, divisor: i64) -> bool {
    !(total == i64::MIN && divisor == -1)
}

proof fn lemma_quotient_bounds(x: int, d: int)
    requires
        d != 0,
        i64::MIN <= x <= i64::MAX,
        i64::MIN <= d <= i64::MAX,
        !(x == i64::MIN && d == -1),
    ensures
        i64::MIN <= quotient(x, d) <= i64::MAX,
{
    if x > 0 && d > 0 {
        assert(0 <= x / d <= x) by (nonlinear_arith)
            requires
                x > 0,
                d > 0,
        ;
    } else if x < 0 && d < 0 {
        let a = x * -1;
        let b = d * -1;
        if b == 1 {
            assert(a / b == a);
        } else {
            assert(0 <= a / b < a) by (nonlinear_arith)
                requires
                    a > 0,
                    b > 1,
            ;
        }
    } else if x < 0 {
        let a = x * -1;
        assert(0 <= a / d <= a) by (nonlinear_arith)
            requires
                a > 0,
                d > 0,
        ;
    } else if x > 0 {
        let b = d * -1;
        assert(0 <= x / b <= x) by (nonlinear_arith)
            requires
                x > 0,
                b > 0,
        ;
    }
}

/// A total, or its mean where a divisor is there.
pub fn mean_value(total: i64, divisor: i64) -> (r: i64)
    requires
        mean_fits(total, divisor),
    ensures
        r == mean(total, divisor),
{
    if divisor == 0 {
        total
    } else {
        proof {
            lemma_quotient_bounds(total as int, divisor as int);
        }
        match total.checked_div(divisor) {
            Some(q) => q,
            None => total,
        }
    }
}

/// What a `Tag` is, as mathematics.
pub struct TagView {
    pub name: Seq<char>,
    pub unit: Seq<char>,
    pub value: i64,
    pub flat: i64,
    pub flat_div: i64,
    pub cum: i64,
    pub cum_div: i64,
}

/// An annotation of samples.
#[derive(Debug, PartialEq, Eq)]
pub struct Tag {
    pub name: String,
    /// The unit of the value; empty for a tag that is not numeric.
    pub unit: String,
    pub value: i64,
    pub flat: i64,
    pub flat_div: i64,
    pub cum: i64,
    pub cum_div: i64,
}

impl View for Tag {
    type V = TagView;

    open spec fn view(&self) -> TagView {
        TagView {
            name: self.name@,
            unit: self.unit@,
            value: self.value,
            flat: self.flat,
            flat_div: self.flat_div,
            cum: self.cum,
            cum_div: self.cum_div,
        }
    }
}

impl DeepView for Tag {
    type V = TagView;

    open spec fn deep_view(&self) -> TagView {
        self@
    }
}

impl Clone for Tag {
    fn clone(&self) -> (r: Tag)
        ensures
            r@ == self@,
    {
        Tag {
            name: self.name.clone(),
            unit: self.unit.clone(),
            value: self.value,
            flat: self.flat,
            flat_div: self.flat_div,
            cum: self.cum,
            cum_div: self.cum_div,
        }
    }
}

impl Tag {
    /// The inclusive value of the tag, the mean where a divisor is there.
    pub fn cum_value(&self) -> (r: i64)
        requires
            mean_fits(self.cum, self.cum_div),
        ensures
            r == mean(self.cum, self.cum_div),
    {
        mean_value(self.cum, self.cum_div)
    }

    /// The exclusive value of the tag, the mean where a divisor is there.
    pub fn flat_value(&self) -> (r: i64)
        requires
            mean_fits(self.flat, self.flat_div),
        ensures
            r == mean(self.flat, self.flat_div),
    {
        mean_value(self.flat, self.flat_div)
    }
}

/// A tag that no sample was counted for.
pub open spec fn fresh_tag(name: Seq<char>, unit: Seq<char>, value: i64) -> TagView {
    TagView { name, unit, value, flat: 0, flat_div: 0, cum: 0, cum_div: 0 }
}

/// A tag after a sample of weight `w` and divisor `dw` was counted for
/// it: for its exclusive value where `flat` is set, for its inclusive value
/// otherwise. There is none where a sum does not fit the machine integer.
pub open spec fn bumped_tag(t: TagView, dw: i64, w: i64, flat: bool) -> Option<TagView> {
    if flat {
        if i64::MIN <= t.flat + w <= i64::MAX && i64::MIN <= t.flat_div + dw <= i64::MAX {
            Some(TagView { flat: (t.flat + w) as i64, flat_div: (t.flat_div + dw) as i64, ..t })
        } else {
            None
        }
    } else {
        if i64::MIN <= t.cum + w <= i64::MAX && i64::MIN <= t.cum_div + dw <= i64::MAX {
            Some(TagView { cum: (t.cum + w) as i64, cum_div: (t.cum_div + dw) as i64, ..t })
        } else {
            None
        }
    }
}

/// What makes a numeric tag: its name, its unit and its value.
pub type TagMark = (Seq<char>, Seq<char>, i64);

/// The tags after a sample was counted for the tag of a name; the tag
/// is made where it is not there.
pub open spec fn bump_in(
    tags: Seq<(Seq<char>, TagView)>,
    mark: TagMark,
    dw: i64,
    w: i64,
    flat: bool,
) -> Option<Seq<(Seq<char>, TagView)>> {
    let tag = match lookup(tags, mark.0) {
        Some(t) => t,
        None => fresh_tag(mark.0, mark.1, mark.2),
    };
    match bumped_tag(tag, dw, w, flat) {
        Some(t) => Some(insert_model(tags, mark.0, t)),
        None => None,
    }
}

/// The tags after a sample was counted for the tags of the first `n`
/// marks of a list.
pub open spec fn bump_all(
    tags: Seq<(Seq<char>, TagView)>,
    marks: Seq<TagMark>,
    dw: i64,
    w: i64,
    flat: bool,
    n: nat,
) -> Option<Seq<(Seq<char>, TagView)>>
    decreases n,
{
    if n == 0 {
        Some(tags)
    } else {
        match bump_all(tags, marks, dw, w, flat, (n - 1) as nat) {
            Some(before) => bump_in(before, marks[n - 1], dw, w, flat),
            None => None,
        }
    }
}

/// Once a mark has failed the tags stay without value.
pub proof fn lemma_bump_stays_failed(
    tags: Seq<(Seq<char>, TagView)>,
    marks: Seq<TagMark>,
    dw: i64,
    w: i64,
    flat: bool,
    n: nat,
    m: nat,
)
    requires
        n <= m,
        bump_all(tags, marks, dw, w, flat, n).is_none(),
    ensures
        bump_all(tags, marks, dw, w, flat, m).is_none(),
    decreases m,
{
    if n < m {
        lemma_bump_stays_failed(tags, marks, dw, w, flat, n, (m - 1) as nat);
    }
}

impl Tag {
    /// Counts a sample for the tag.
    pub fn bump(&mut self, dw: i64, w: i64, flat: bool) -> (r: Result<(), RockError>)
        ensures
            match bumped_tag(old(self)@, dw, w, flat) {
                Some(t) => r is Ok && final(self)@ == t,
                None => r matches Err(e) && e.kind_of() == ErrorKind::Unknown && final(self)@
                    == old(self)@,
            },
    {
        if flat {
            match (self.flat.checked_add(w), self.flat_div.checked_add(dw)) {
                (Some(a), Some(b)) => {
                    self.flat = a;
                    self.flat_div = b;
                    Ok(())
                },
                _ => Err(
                    RockError::new(ErrorKind::Unknown, "the exclusive value of a tag does not fit"),
                ),
            }
        } else {
            match (self.cum.checked_add(w), self.cum_div.checked_add(dw)) {
                (Some(a), Some(b)) => {
                    self.cum = a;
                    self.cum_div = b;
                    Ok(())
                },
                _ => Err(
                    RockError::new(ErrorKind::Unknown, "the inclusive value of a tag does not fit"),
                ),
            }
        }
    }
}

/// Counts a sample for the tag of a name; the tag is made where it is
/// not there.
pub fn bump_tag(
    tags: &mut KeyedList<Tag>,
    name: &str,
    unit: &str,
    value: i64,
    dw: i64,
    w: i64,
    flat: bool,
) -> (r: Result<(), RockError>)
    ensures
        match bump_in(old(tags).model(), (name@, unit@, value), dw, w, flat) {
            Some(m) => r is Ok && final(tags).model() == m,
            None => r matches Err(e) && e.kind_of() == ErrorKind::Unknown && final(tags).model()
                == old(tags).model(),
        },
{
    let mut tag = match tags.get(name) {
        Some(t) => t.clone(),
        None => Tag {
            name: String::from_str(name),
            unit: String::from_str(unit),
            value,
            flat: 0,
            flat_div: 0,
            cum: 0,
            cum_div: 0,
        },
    };
    tag.bump(dw, w, flat)?;
    tags.insert(String::from_str(name), tag);
    Ok(())
}

/// Counts a sample for the tags of the marks of a list.
pub fn bump_tags(
    tags: &mut KeyedList<Tag>,
    marks: &Vec<(String, String, i64)>,
    dw: i64,
    w: i64,
    flat: bool,
) -> (r: Result<(), RockError>)
    ensures
        match bump_all(old(tags).model(), marks.deep_view(), dw, w, flat, marks.len() as nat) {
            Some(m) => r is Ok && final(tags).model() == m,
            None => r matches Err(e) && e.kind_of() == ErrorKind::Unknown,
        },
{
    let ghost start = tags.model();
    let ghost all = marks.deep_view();
    let mut i: usize = 0;
    while i < marks.len()
        invariant
            i <= marks.len(),
            all == marks.deep_view(),
            start == old(tags).model(),
            bump_all(start, all, dw, w, flat, i as nat) == Some(tags.model()),
        decreases marks.len() - i,
    {
        assert(all[i as int] == (marks[i as int].0@, marks[i as int].1@, marks[i as int].2));
        proof {
            if bump_in(tags.model(), all[i as int], dw, w, flat).is_none() {
                lemma_bump_stays_failed(start, all, dw, w, flat, (i + 1) as nat, all.len());
            }
        }
        bump_tag(tags, marks[i].0.as_str(), marks[i].1.as_str(), marks[i].2, dw, w, flat)?;
        i += 1;
    }
    Ok(())
}

/// An edge of the graph. Its ends are places in the list of nodes.
#[derive(Clone, Copy, Debug, PartialEq, Eq, Structural)]
pub struct Edge {
    pub src: usize,
    pub dest: usize,
    /// The summed weight of the edge.
    pub weight: i64,
    pub weight_div: i64,
    /// A residual edge joins nodes that were joined through a node that
    /// was taken out of the report.
    pub residual: bool,
    /// An inline edge stands for calls that were all inlined.
    pub inline: bool,
}

impl Edge {
    /// The weight of the edge, the mean where a divisor is there.
    pub fn weight_value(&self) -> (r: i64)
        requires
            mean_fits(self.weight, self.weight_div),
        ensures
            r == mean(self.weight, self.weight_div),
    {
        mean_value(self.weight, self.weight_div)
    }
}

/// The edges of a node in one direction, each under the place of the
/// node at its other end.
#[derive(Debug, PartialEq, Eq)]
pub struct EdgeMap {
    edges: HashMap<usize, Edge>,
}

impl View for EdgeMap {
    type V = Map<usize, Edge>;

    closed spec fn view(&self) -> Map<usize, Edge> {
        self.edges@
    }
}

impl EdgeMap {
    /// The map without edges.
    pub fn new() -> (r: EdgeMap)
        ensures
            r@ == Map::<usize, Edge>::empty(),
    {
        EdgeMap { edges: HashMap::new() }
    }

    /// The edge under a peer, if there is one.
    pub fn get(&self, peer: usize) -> (r: Option<Edge>)
        ensures
            r == (if self@.contains_key(peer) {
                Some(self@[peer])
            } else {
                None
            }),
    {
        match self.edges.get(&peer) {
            Some(e) => Some(*e),
            None => None,
        }
    }

    /// Puts an edge under a peer.
    pub fn insert(&mut self, peer: usize, e: Edge)
        ensures
            final(self)@ == old(self)@.insert(peer, e),
    {
        let _ = self.edges.insert(peer, e);
    }

    /// The number of edges.
    pub fn len(&self) -> (n: usize)
        ensures
            n == self@.len(),
    {
        self.edges.len()
    }
}

/// The edge under a peer, if there is one.
pub open spec fn edge_under(edges: Map<usize, Edge>, peer: usize) -> Option<Edge> {
    if edges.contains_key(peer) {
        Some(edges[peer])
    } else {
        None
    }
}

/// The edge from `src` to `dest` after one more contribution: a new
/// edge takes the weights and marks as they are given; an edge that is
/// there adds the weights to its own, is residual if it was or the
/// contribution is, and stays inline only if the contribution is inline too.
pub open spec fn merged_edge(
    before: Option<Edge>,
    src: usize,
    dest: usize,
    dv: i64,
    v: i64,
    residual: bool,
    inline: bool,
) -> Edge {
    match before {
        Some(e) => Edge {
            weight: (e.weight + v) as i64,
            weight_div: (e.weight_div + dv) as i64,
            residual: e.residual || residual,
            inline: e.inline && inline,
            ..e
        },
        None => Edge { src, dest, weight: v, weight_div: dv, residual, inline },
    }
}

/// Whether the sums of a contribution fit the machine integer.
pub open spec fn edge_sum_fits(before: Option<Edge>, dv: i64, v: i64) -> bool {
    match before {
        Some(e) => i64::MIN <= e.weight + v <= i64::MAX && i64::MIN <= e.weight_div + dv
            <= i64::MAX,
        None => true,
    }
}

/// The edge after one more contribution.
pub fn merge_edge(
    before: Option<Edge>,
    src: usize,
    dest: usize,
    dv: i64,
    v: i64,
    residual: bool,
    inline: bool,
) -> (e: Edge)
    requires
        edge_sum_fits(before, dv, v),
    ensures
        e == merged_edge(before, src, dest, dv, v, residual, inline),
{
    match before {
        Some(e) => Edge {
            src: e.src,
            dest: e.dest,
            weight: e.weight + v,
            weight_div: e.weight_div + dv,
            residual: e.residual || residual,
            inline: e.inline && inline,
        },
        None => Edge { src, dest, weight: v, weight_div: dv, residual, inline },
    }
}

/// What a `Node` is, as mathematics.
pub struct NodeView {
    pub index: usize,
    pub info: NodeInfoView,
    pub function: Option<usize>,
    pub flat: i64,
    pub flat_div: i64,
    pub cum: i64,
    pub cum_div: i64,
    pub in_edges: Map<usize, Edge>,
    pub out: Map<usize, Edge>,
    pub label_tags: Seq<(Seq<char>, TagView)>,
    pub numeric_tags: Seq<(Seq<char>, Seq<(Seq<char>, TagView)>)>,
}

/// An entry of a report: one program location.
#[derive(Debug, PartialEq, Eq)]
pub struct Node {
    /// The place of this node in the list of nodes of its graph.
    pub index: usize,
    /// The source location of this node.
    pub info: NodeInfo,
    /// The place of the node of the function that this node belongs to;
    /// the place of this node itself where it stands for a whole function.
    pub function: Option<usize>,
    /// The value of this node alone.
    pub flat: i64,
    pub flat_div: i64,
    /// The value of this node and of all that it calls.
    pub cum: i64,
    pub cum_div: i64,
    /// The edges from the nodes that reach this node.
    pub in_edges: EdgeMap,
    /// The edges to the nodes that this node reaches.
    pub out: EdgeMap,
    /// The tags of the text labels of the samples of this node.
    pub label_tags: KeyedList<Tag>,
    /// The tags of the numeric labels, under the name of the label tag
    /// that they belong to; under the empty name those that belong to none.
    pub numeric_tags: KeyedList<KeyedList<Tag>>,
}

impl View for Node {
    type V = NodeView;

    open spec fn view(&self) -> NodeView {
        NodeView {
            index: self.index,
            info: self.info@,
            function: self.function,
            flat: self.flat,
            flat_div: self.flat_div,
            cum: self.cum,
            cum_div: self.cum_div,
            in_edges: self.in_edges@,
            out: self.out@,
            label_tags: self.label_tags.model(),
            numeric_tags: self.numeric_tags.model(),
        }
    }
}

impl NodeView {
    /// The node without values, edges and tags.
    pub open spec fn empty() -> NodeView {
        NodeView {
            index: 0,
            info: NodeInfoView::empty(),
            function: None,
            flat: 0,
            flat_div: 0,
            cum: 0,
            cum_div: 0,
            in_edges: Map::empty(),
            out: Map::empty(),
            label_tags: Seq::empty(),
            numeric_tags: Seq::empty(),
        }
    }
}

impl Node {
    /// The node without values, edges and tags.
    pub fn new() -> (r: Node)
        ensures
            r@ == NodeView::empty(),
    {
        Node {
            index: 0,
            info: NodeInfo::default(),
            function: None,
            flat: 0,
            flat_div: 0,
            cum: 0,
            cum_div: 0,
            in_edges: EdgeMap::new(),
            out: EdgeMap::new(),
            label_tags: KeyedList::new(),
            numeric_tags: KeyedList::new(),
        }
    }

    /// The exclusive value of the node, the mean where a divisor is there.
    pub fn flat_value(&self) -> (r: i64)
        requires
            mean_fits(self.flat, self.flat_div),
        ensures
            r == mean(self.flat, self.flat_div),
    {
        mean_value(self.flat, self.flat_div)
    }

    /// The inclusive value of the node, the mean where a divisor is there.
    pub fn cum_value(&self) -> (r: i64)
        requires
            mean_fits(self.cum, self.cum_div),
        ensures
            r == mean(self.cum, self.cum_div),
    {
        mean_value(self.cum, self.cum_div)
    }

    /// Adds `v` and `dv` to the weights of the edge from this node to the
    /// node `to`; the edge is made where it is not there. The outbound
    /// table of this node and the inbound table of `to` take the same
    /// edge. The two nodes have to agree on the edge as it is.
    pub fn add_to_edge_div(&mut self, to: &mut Node, dv: i64, v: i64, residual: bool, inline: bool)
        requires
            edge_under(old(self)@.out, old(to).index) == edge_under(
                old(to)@.in_edges,
                old(self).index,
            ),
            edge_sum_fits(edge_under(old(self)@.out, old(to).index), dv, v),
        ensures
            final(self)@ == (NodeView {
                out: old(self)@.out.insert(
                    old(to).index,
                    merged_edge(
                        edge_under(old(self)@.out, old(to).index),
                        old(self).index,
                        old(to).index,
                        dv,
                        v,
                        residual,
                        inline,
                    ),
                ),
                ..old(self)@
            }),
            final(to)@ == (NodeView {
                in_edges: old(to)@.in_edges.insert(
                    old(self).index,
                    merged_edge(
                        edge_under(old(self)@.out, old(to).index),
                        old(self).index,
                        old(to).index,
                        dv,
                        v,
                        residual,
                        inline,
                    ),
                ),
                ..old(to)@
            }),
    {
        let e = merge_edge(self.out.get(to.index), self.index, to.index, dv, v, residual, inline);
        self.out.insert(to.index, e);
        to.in_edges.insert(self.index, e);
    }

    /// Adds `v` to the weight of the edge from this node to the node `to`,
    /// as `add_to_edge_div` does without a divisor.
    pub fn add_to_edge(&mut self, to: &mut Node, v: i64, residual: bool, inline: bool)
        requires
            edge_under(old(self)@.out, old(to).index) == edge_under(
                old(to)@.in_edges,
                old(self).index,
            ),
            edge_sum_fits(edge_under(old(self)@.out, old(to).index), 0, v),
        ensures
            final(self)@ == (NodeView {
                out: old(self)@.out.insert(
                    old(to).index,
                    merged_edge(
                        edge_under(old(self)@.out, old(to).index),
                        old(self).index,
                        old(to).index,
                        0,
                        v,
                        residual,
                        inline,
                    ),
                ),
                ..old(self)@
            }),
            final(to)@ == (NodeView {
                in_edges: old(to)@.in_edges.insert(
                    old(self).index,
                    merged_edge(
                        edge_under(old(self)@.out, old(to).index),
                        old(self).index,
                        old(to).index,
                        0,
                        v,
                        residual,
                        inline,
                    ),
                ),
                ..old(to)@
            }),
    {
        self.add_to_edge_div(to, 0, v, residual, inline);
    }
}

} // verus!
