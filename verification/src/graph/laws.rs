//! What the graph of a profile counts: the values of its nodes are sums
//! over the samples.

use crate::graph::builder::{
    divisor_of, frames_in_range, frames_of, function_entry, graph_of, has_info, interned, interned_entry, kept,
    location_infos, marks_of, nodes_for_infos, nodes_for_locations, place_of, places_in_range,
    stack_frames, touched, walked, weight_of, with_edge, with_sample, with_samples, Frame,
    MarksView, OptionsView, WalkState,
};
use crate::graph::info::NodeInfoView;
use crate::graph::node::{edge_sum_fits, edge_under, Edge, NodeView};
use crate::profile::index::{last_position, lemma_last_position};
use crate::profile::location::LocationView;
use crate::profile::sample::SampleView;
use crate::profile::validate::location_ids;
use crate::profile::ProfileView;
use vstd::prelude::*;

verus! {

/// Whether a walk passes the node at place `n`.
pub open spec fn touches(frames: Seq<Frame>, n: usize) -> bool {
    exists|i: int| 0 <= i < frames.len() && (#[trigger] frames[i]).0 == Some(n)
}

/// The leaf of a walk: the node of its last frame, where that frame has
/// a node.
pub open spec fn leaf_of(frames: Seq<Frame>) -> Option<usize> {
    if frames.len() > 0 {
        frames.last().0
    } else {
        None
    }
}

/// `w` where `b` holds, 0 otherwise.
pub open spec fn when(b: bool, w: i64) -> int {
    if b {
        w as int
    } else {
        0
    }
}

/// The four values of two nodes differ by what a sample adds: `cum` and
/// `cum_div` to the inclusive values, `flat` and `flat_div` to the
/// exclusive ones.
pub open spec fn values_differ(
    after: NodeView,
    before: NodeView,
    cum: int,
    cum_div: int,
    flat: int,
    flat_div: int,
) -> bool {
    &&& after.cum == before.cum + cum
    &&& after.cum_div == before.cum_div + cum_div
    &&& after.flat == before.flat + flat
    &&& after.flat_div == before.flat_div + flat_div
}

/// Counting a sample for a node changes that node alone, and of its
/// values those that the sample is counted for.
proof fn lemma_touched(g: Seq<NodeView>, n: usize, marks: MarksView, dw: i64, w: i64, flat: bool)
    requires
        n < g.len(),
        touched(g, n, marks, dw, w, flat) is Some,
    ensures
        touched(g, n, marks, dw, w, flat)->0.len() == g.len(),
        forall|m: int|
            0 <= m < g.len() && m != n ==> #[trigger] touched(g, n, marks, dw, w, flat)->0[m]
                == g[m],
        values_differ(
            touched(g, n, marks, dw, w, flat)->0[n as int],
            g[n as int],
            when(!flat, w),
            when(!flat, dw),
            when(flat, w),
            when(flat, dw),
        ),
        touched(g, n, marks, dw, w, flat)->0[n as int].out == g[n as int].out,
        touched(g, n, marks, dw, w, flat)->0[n as int].in_edges == g[n as int].in_edges,
{
}

/// A contribution to an edge leaves the values of all nodes as they
/// are.
proof fn lemma_edge_keeps_values(
    g: Seq<NodeView>,
    src: usize,
    dest: usize,
    dv: i64,
    v: i64,
    residual: bool,
    inline: bool,
)
    requires
        src < g.len(),
        dest < g.len(),
        edge_sum_fits(edge_under(g[src as int].out, dest), dv, v),
    ensures
        with_edge(g, src, dest, dv, v, residual, inline).len() == g.len(),
        forall|m: int|
            0 <= m < g.len() ==> values_differ(
                #[trigger] with_edge(g, src, dest, dv, v, residual, inline)[m],
                g[m],
                0,
                0,
                0,
                0,
            ),
        forall|a: usize, b: usize|
            a < g.len() ==> edge_differs(
                #[trigger] edge_under(with_edge(g, src, dest, dv, v, residual, inline)[a as int].out, b),
                edge_under(g[a as int].out, b),
                a == src && b == dest,
                dv,
                v,
            ),
{
}

/// Where a walk starts.
pub open spec fn walk_start(g: Seq<NodeView>) -> WalkState {
    WalkState {
        g,
        parent: None,
        residual: false,
        seen_nodes: Seq::empty(),
        seen_edges: Seq::empty(),
    }
}

/// What holds of a walk after the frames `frames`: every node that the
/// walk passed was counted once for its inclusive values, and the walk
/// remembers the node of the last frame.
pub open spec fn walk_counts(
    g: Seq<NodeView>,
    st: WalkState,
    frames: Seq<Frame>,
    dw: i64,
    w: i64,
) -> bool {
    &&& st.g.len() == g.len()
    &&& forall|n: usize|
        n < g.len() ==> values_differ(
            #[trigger] st.g[n as int],
            g[n as int],
            when(touches(frames, n), w),
            when(touches(frames, n), dw),
            0,
            0,
        )
    &&& forall|n: usize| #[trigger] st.seen_nodes.contains(n) <==> touches(frames, n)
    &&& st.parent matches Some(p) ==> p < g.len()
    &&& st.parent == last_node(frames)
    &&& if frames.len() == 0 {
        !st.residual
    } else {
        match frames.last().0 {
            Some(x) => !st.residual,
            None => st.residual,
        }
    }
    &&& forall|u: usize, v: usize| #[trigger]
        st.seen_edges.contains((u, v)) <==> calls(frames, u, v)
    &&& forall|u: usize, v: usize|
        u < g.len() ==> edge_differs(
            #[trigger] edge_under(st.g[u as int].out, v),
            edge_under(g[u as int].out, v),
            calls(frames, u, v),
            dw,
            w,
        )
}

/// The node of the last frame that has a node.
pub open spec fn last_node(frames: Seq<Frame>) -> Option<usize>
    decreases frames.len(),
{
    if frames.len() == 0 {
        None
    } else {
        match frames.last().0 {
            Some(x) => Some(x),
            None => last_node(frames.drop_last()),
        }
    }
}

/// Whether a walk goes from the node at place `u` to another node at
/// place `v`: a frame of `v` comes after a frame of `u`, with no frame of
/// a node between the two.
pub open spec fn calls(frames: Seq<Frame>, u: usize, v: usize) -> bool {
    u != v && exists|j: int|
        0 <= j < frames.len() && (#[trigger] frames[j]).0 == Some(v) && last_node(frames.take(j))
            == Some(u)
}

/// The weight of an edge, 0 for an edge that is not there.
pub open spec fn weight_of_edge(e: Option<Edge>) -> int {
    match e {
        Some(e) => e.weight as int,
        None => 0,
    }
}

/// The divisor of an edge, 0 for an edge that is not there.
pub open spec fn divisor_of_edge(e: Option<Edge>) -> int {
    match e {
        Some(e) => e.weight_div as int,
        None => 0,
    }
}

/// An edge after a sample: where the sample goes along the edge, the edge
/// is there and its weight and divisor have grown by those of the sample;
/// otherwise it is as it was.
pub open spec fn edge_differs(
    after: Option<Edge>,
    before: Option<Edge>,
    goes: bool,
    dw: i64,
    w: i64,
) -> bool {
    if goes {
        &&& after is Some
        &&& weight_of_edge(after) == weight_of_edge(before) + w
        &&& divisor_of_edge(after) == divisor_of_edge(before) + dw
    } else {
        after == before
    }
}

/// A walk goes along an edge within one more frame if it did before, or
/// the frame is of the head of the edge and the node before is its tail.
proof fn lemma_calls_take(frames: Seq<Frame>, i: int, u: usize, v: usize)
    requires
        0 <= i < frames.len(),
    ensures
        calls(frames.take(i + 1), u, v) <==> calls(frames.take(i), u, v) || (u != v
            && frames[i].0 == Some(v) && last_node(frames.take(i)) == Some(u)),
{
    let now = frames.take(i + 1);
    let past = frames.take(i);
    if calls(now, u, v) {
        let j = choose|j: int|
            0 <= j < now.len() && (#[trigger] now[j]).0 == Some(v) && last_node(now.take(j))
                == Some(u);
        assert(now.take(j) =~= frames.take(j));
        if j < i {
            assert(past[j].0 == Some(v));
            assert(past.take(j) =~= frames.take(j));
        }
    }
    if calls(past, u, v) {
        let j = choose|j: int|
            0 <= j < past.len() && (#[trigger] past[j]).0 == Some(v) && last_node(past.take(j))
                == Some(u);
        assert(past.take(j) =~= frames.take(j));
        assert(now.take(j) =~= frames.take(j));
        assert(now[j].0 == Some(v));
    }
    if u != v && frames[i].0 == Some(v) && last_node(past) == Some(u) {
        assert(now[i].0 == Some(v));
        assert(now.take(i) =~= past);
    }
}

/// The last node within one more frame.
proof fn lemma_last_node_take(frames: Seq<Frame>, i: int)
    requires
        0 <= i < frames.len(),
    ensures
        last_node(frames.take(i + 1)) == (match frames[i].0 {
            Some(x) => Some(x),
            None => last_node(frames.take(i)),
        }),
{
    assert(frames.take(i + 1).last() == frames[i]);
    assert(frames.take(i + 1).drop_last() =~= frames.take(i));
}

/// A walk passes a node within one more frame if it passed it before or
/// the frame is of that node.
proof fn lemma_touches_take(frames: Seq<Frame>, i: int, n: usize)
    requires
        0 <= i < frames.len(),
    ensures
        touches(frames.take(i + 1), n) <==> touches(frames.take(i), n) || frames[i].0 == Some(n),
{
    if touches(frames.take(i + 1), n) {
        let t = choose|t: int|
            0 <= t < frames.take(i + 1).len() && (#[trigger] frames.take(i + 1)[t]).0 == Some(n);
        if t < i {
            assert(frames.take(i)[t].0 == Some(n));
        }
    }
    if touches(frames.take(i), n) {
        let t = choose|t: int| 0 <= t < frames.take(i).len() && (#[trigger] frames.take(i)[t]).0
            == Some(n);
        assert(frames.take(i + 1)[t].0 == Some(n));
    }
    if frames[i].0 == Some(n) {
        assert(frames.take(i + 1)[i].0 == Some(n));
    }
}

/// What a list holds after one more element.
proof fn lemma_push_contains<T>(list: Seq<T>, x: T, y: T)
    ensures
        list.push(x).contains(y) <==> list.contains(y) || y == x,
{
    let more = list.push(x);
    if more.contains(y) {
        let t = choose|t: int| 0 <= t < more.len() && more[t] == y;
        if t < list.len() {
            assert(list[t] == y);
        }
    }
    if list.contains(y) {
        let t = choose|t: int| 0 <= t < list.len() && list[t] == y;
        assert(more[t] == y);
    }
    assert(more[list.len() as int] == x);
}

proof fn lemma_walk_counts(
    g: Seq<NodeView>,
    frames: Seq<Frame>,
    marks: MarksView,
    dw: i64,
    w: i64,
    i: nat,
)
    requires
        i <= frames.len(),
        frames_in_range(frames, g.len()),
        walked(walk_start(g), frames, marks, dw, w, i) is Some,
    ensures
        walk_counts(g, walked(walk_start(g), frames, marks, dw, w, i)->0, frames.take(i as int), dw, w),
    decreases i,
{
    if i == 0 {
        let none = frames.take(0);
        assert(none.len() == 0);
        assert forall|n: usize| !touches(none, n) by {}
        assert forall|u: usize, v: usize| !calls(none, u, v) by {}
    } else {
        lemma_walk_counts(g, frames, marks, dw, w, (i - 1) as nat);
        let before = walked(walk_start(g), frames, marks, dw, w, (i - 1) as nat)->0;
        let after = walked(walk_start(g), frames, marks, dw, w, i)->0;
        let frame = frames[i - 1];
        let past = frames.take(i - 1);
        let now = frames.take(i as int);
        assert(now.last() == frame);
        lemma_last_node_take(frames, i - 1);
        assert forall|n: usize| touches(now, n) <==> touches(past, n) || frame.0 == Some(n) by {
            lemma_touches_take(frames, i - 1, n);
        }
        assert forall|u: usize, v: usize|
            calls(now, u, v) <==> calls(past, u, v) || (u != v && frame.0 == Some(v)
                && last_node(past) == Some(u)) by {
            lemma_calls_take(frames, i - 1, u, v);
        }
        match frame.0 {
            None => {
                assert forall|u: usize, v: usize| u < g.len() implies edge_differs(
                    #[trigger] edge_under(after.g[u as int].out, v),
                    edge_under(g[u as int].out, v),
                    calls(now, u, v),
                    dw,
                    w,
                ) by {
                    assert(edge_differs(
                        edge_under(before.g[u as int].out, v),
                        edge_under(g[u as int].out, v),
                        calls(past, u, v),
                        dw,
                        w,
                    ));
                }
            },
            Some(x) => {
                assert(x < g.len());
                let counted = if before.seen_nodes.contains(x) {
                    before.g
                } else {
                    touched(before.g, x, marks, dw, w, false)->0
                };
                if !before.seen_nodes.contains(x) {
                    lemma_touched(before.g, x, marks, dw, w, false);
                }
                assert forall|u: usize, v: usize| u < g.len() implies edge_under(
                    counted[u as int].out,
                    v,
                ) == edge_under(before.g[u as int].out, v) by {}
                let makes_edge = before.parent is Some && before.parent->0 != x
                    && !before.seen_edges.contains((before.parent->0, x));
                if makes_edge {
                    let caller = before.parent->0;
                    lemma_edge_keeps_values(counted, caller, x, dw, w, before.residual, frame.1);
                    assert(after.g == with_edge(counted, caller, x, dw, w, before.residual, frame.1));
                    assert(after.seen_edges == before.seen_edges.push((caller, x)));
                } else {
                    assert(after.g == counted);
                    assert(after.seen_edges == before.seen_edges);
                }
                assert forall|n: usize| n < g.len() implies values_differ(
                    #[trigger] after.g[n as int],
                    g[n as int],
                    when(touches(now, n), w),
                    when(touches(now, n), dw),
                    0,
                    0,
                ) by {
                    assert(values_differ(
                        before.g[n as int],
                        g[n as int],
                        when(touches(past, n), w),
                        when(touches(past, n), dw),
                        0,
                        0,
                    ));
                    assert(before.seen_nodes.contains(n) <==> touches(past, n));
                    if n != x && !before.seen_nodes.contains(x) {
                        assert(counted[n as int] == before.g[n as int]);
                    }
                }
                assert forall|n: usize| #[trigger]
                    after.seen_nodes.contains(n) <==> touches(now, n) by {
                    assert(before.seen_nodes.contains(n) <==> touches(past, n));
                    if !before.seen_nodes.contains(x) {
                        lemma_push_contains(before.seen_nodes, x, n);
                    }
                }
                assert forall|u: usize, v: usize| #[trigger]
                    after.seen_edges.contains((u, v)) <==> calls(now, u, v) by {
                    assert(before.seen_edges.contains((u, v)) <==> calls(past, u, v));
                    if makes_edge {
                        lemma_push_contains(before.seen_edges, (before.parent->0, x), (u, v));
                    } else if before.parent is Some && before.parent->0 != x {
                        let caller = before.parent->0;
                        assert(before.seen_edges.contains((caller, x)) <==> calls(
                            past,
                            caller,
                            x,
                        ));
                    }
                }
                assert forall|u: usize, v: usize| u < g.len() implies edge_differs(
                    #[trigger] edge_under(after.g[u as int].out, v),
                    edge_under(g[u as int].out, v),
                    calls(now, u, v),
                    dw,
                    w,
                ) by {
                    assert(edge_differs(
                        edge_under(before.g[u as int].out, v),
                        edge_under(g[u as int].out, v),
                        calls(past, u, v),
                        dw,
                        w,
                    ));
                    assert(edge_under(counted[u as int].out, v) == edge_under(
                        before.g[u as int].out,
                        v,
                    ));
                    assert(before.seen_edges.contains((u, v)) <==> calls(past, u, v));
                    if makes_edge {
                        let caller = before.parent->0;
                        assert(edge_differs(
                            edge_under(after.g[u as int].out, v),
                            edge_under(counted[u as int].out, v),
                            u == caller && v == x,
                            dw,
                            w,
                        ));
                    }
                }
            },
        }
    }
}

/// What one sample adds to the values of a node: its weight to the
/// inclusive value of every node that its walk passes, and to the
/// exclusive value of its leaf; its divisor likewise.
pub proof fn lemma_sample_counts(
    g: Seq<NodeView>,
    frames: Seq<Frame>,
    marks: MarksView,
    dw: i64,
    w: i64,
    n: usize,
)
    requires
        frames_in_range(frames, g.len()),
        with_sample(g, frames, marks, dw, w) is Some,
        n < g.len(),
    ensures
        with_sample(g, frames, marks, dw, w)->0.len() == g.len(),
        values_differ(
            with_sample(g, frames, marks, dw, w)->0[n as int],
            g[n as int],
            when(touches(frames, n), w),
            when(touches(frames, n), dw),
            when(leaf_of(frames) == Some(n), w),
            when(leaf_of(frames) == Some(n), dw),
        ),
{
    lemma_walk_counts(g, frames, marks, dw, w, frames.len());
    assert(frames.take(frames.len() as int) =~= frames);
    let st = walked(walk_start(g), frames, marks, dw, w, frames.len())->0;
    assert(values_differ(
        st.g[n as int],
        g[n as int],
        when(touches(frames, n), w),
        when(touches(frames, n), dw),
        0,
        0,
    ));
    match st.parent {
        Some(leaf) if !st.residual => {
            lemma_touched(st.g, leaf, marks, dw, w, true);
            if leaf != n {
                assert(touched(st.g, leaf, marks, dw, w, true)->0[n as int] == st.g[n as int]);
            }
        },
        _ => {},
    }
}

/// Whether a sample is counted: all samples are, but those of negative
/// weight where the options leave them out.
pub open spec fn counted(s: SampleView, opt: OptionsView) -> bool {
    !(opt.drop_negative && weight_of(s, opt) < 0)
}

/// The walk of a sample: the frames of its call stack, the root first.
pub open spec fn sample_frames(
    s: SampleView,
    ids: Seq<u64>,
    table: Seq<Seq<Option<usize>>>,
) -> Seq<Frame> {
    stack_frames(location_ids(s.location), ids, table, location_ids(s.location).len())
}

/// The sum of the weights of those of the first `n` samples that are
/// counted and whose walk passes the node at place `node`.
pub open spec fn inclusive_sum(
    samples: Seq<SampleView>,
    ids: Seq<u64>,
    table: Seq<Seq<Option<usize>>>,
    opt: OptionsView,
    node: usize,
    n: nat,
) -> int
    decreases n,
{
    if n == 0 {
        0
    } else {
        let s = samples[n - 1];
        inclusive_sum(samples, ids, table, opt, node, (n - 1) as nat) + when(
            counted(s, opt) && touches(sample_frames(s, ids, table), node),
            weight_of(s, opt),
        )
    }
}

/// The sum of the divisors of those of the first `n` samples that are
/// counted and whose walk passes the node at place `node`.
pub open spec fn inclusive_divisor_sum(
    samples: Seq<SampleView>,
    ids: Seq<u64>,
    table: Seq<Seq<Option<usize>>>,
    opt: OptionsView,
    node: usize,
    n: nat,
) -> int
    decreases n,
{
    if n == 0 {
        0
    } else {
        let s = samples[n - 1];
        inclusive_divisor_sum(samples, ids, table, opt, node, (n - 1) as nat) + when(
            counted(s, opt) && touches(sample_frames(s, ids, table), node),
            divisor_of(s, opt),
        )
    }
}

/// The sum of the weights of those of the first `n` samples that are
/// counted and whose leaf is the node at place `node`.
pub open spec fn exclusive_sum(
    samples: Seq<SampleView>,
    ids: Seq<u64>,
    table: Seq<Seq<Option<usize>>>,
    opt: OptionsView,
    node: usize,
    n: nat,
) -> int
    decreases n,
{
    if n == 0 {
        0
    } else {
        let s = samples[n - 1];
        exclusive_sum(samples, ids, table, opt, node, (n - 1) as nat) + when(
            counted(s, opt) && leaf_of(sample_frames(s, ids, table)) == Some(node),
            weight_of(s, opt),
        )
    }
}

/// The sum of the divisors of those of the first `n` samples that are
/// counted and whose leaf is the node at place `node`.
pub open spec fn exclusive_divisor_sum(
    samples: Seq<SampleView>,
    ids: Seq<u64>,
    table: Seq<Seq<Option<usize>>>,
    opt: OptionsView,
    node: usize,
    n: nat,
) -> int
    decreases n,
{
    if n == 0 {
        0
    } else {
        let s = samples[n - 1];
        exclusive_divisor_sum(samples, ids, table, opt, node, (n - 1) as nat) + when(
            counted(s, opt) && leaf_of(sample_frames(s, ids, table)) == Some(node),
            divisor_of(s, opt),
        )
    }
}

/// The frames of a call stack name nodes of the graph where the table
/// of frames does.
proof fn lemma_stack_in_range(
    stack: Seq<u64>,
    ids: Seq<u64>,
    table: Seq<Seq<Option<usize>>>,
    n: nat,
    len: nat,
)
    requires
        n <= stack.len(),
        places_in_range(table, len),
    ensures
        frames_in_range(stack_frames(stack, ids, table, n), len),
    decreases n,
{
    if n > 0 {
        lemma_stack_in_range(stack, ids, table, (n - 1) as nat, len);
        let before = stack_frames(stack, ids, table, (n - 1) as nat);
        let all = stack_frames(stack, ids, table, n);
        match last_position(ids, stack[stack.len() - n]) {
            Some(p) if p < table.len() => {
                lemma_last_position(ids, stack[stack.len() - n]);
                let added = frames_of(table[p]);
                assert forall|i: int| 0 <= i < all.len() implies ((#[trigger] all[i]).0 matches Some(
                    q,
                ) ==> q < len) by {
                    if i < before.len() {
                        assert(before[i].0 matches Some(q) ==> q < len);
                    } else {
                        let t = i - before.len();
                        let k = table[p].len() - 1 - t;
                        assert(added[t].0 == table[p][k]);
                        assert(table[p][k] matches Some(q) ==> q < len);
                    }
                }
            },
            _ => {
                assert(all =~= before);
            },
        }
    }
}

/// What the first `n` samples add to the values of a node.
proof fn lemma_samples_count(
    g: Seq<NodeView>,
    samples: Seq<SampleView>,
    ids: Seq<u64>,
    table: Seq<Seq<Option<usize>>>,
    opt: OptionsView,
    node: usize,
    n: nat,
)
    requires
        n <= samples.len(),
        places_in_range(table, g.len()),
        with_samples(g, samples, ids, table, opt, n) is Some,
        node < g.len(),
    ensures
        with_samples(g, samples, ids, table, opt, n)->0.len() == g.len(),
        values_differ(
            with_samples(g, samples, ids, table, opt, n)->0[node as int],
            g[node as int],
            inclusive_sum(samples, ids, table, opt, node, n),
            inclusive_divisor_sum(samples, ids, table, opt, node, n),
            exclusive_sum(samples, ids, table, opt, node, n),
            exclusive_divisor_sum(samples, ids, table, opt, node, n),
        ),
    decreases n,
{
    if n > 0 {
        lemma_samples_count(g, samples, ids, table, opt, node, (n - 1) as nat);
        let before = with_samples(g, samples, ids, table, opt, (n - 1) as nat)->0;
        let s = samples[n - 1];
        if counted(s, opt) {
            let stack = location_ids(s.location);
            lemma_stack_in_range(stack, ids, table, stack.len(), g.len());
            lemma_sample_counts(
                before,
                sample_frames(s, ids, table),
                marks_of(s),
                divisor_of(s, opt),
                weight_of(s, opt),
                node,
            );
        }
    }
}

/// The four values of every node are 0, and no node has an outbound
/// edge.
pub open spec fn all_zero(g: Seq<NodeView>) -> bool {
    forall|i: int|
        0 <= i < g.len() ==> (#[trigger] g[i]).cum == 0 && g[i].cum_div == 0 && g[i].flat == 0
            && g[i].flat_div == 0 && g[i].out == Map::<usize, Edge>::empty()
}

proof fn lemma_interned_entry(g: Seq<NodeView>, info: NodeInfoView)
    requires
        all_zero(g),
    ensures
        all_zero(interned_entry(g, info).0),
        g.len() <= interned_entry(g, info).0.len(),
        interned_entry(g, info).1 < interned_entry(g, info).0.len(),
{
    if has_info(g, info) {
        let p = place_of(g, info);
    }
}

proof fn lemma_interned(g: Seq<NodeView>, info: NodeInfoView)
    requires
        all_zero(g),
    ensures
        all_zero(interned(g, info).0),
        g.len() <= interned(g, info).0.len(),
        interned(g, info).1 < interned(g, info).0.len(),
{
    if has_info(g, info) {
        let p = place_of(g, info);
    } else {
        lemma_interned_entry(g, info);
        lemma_interned_entry(g, function_entry(info));
    }
}

proof fn lemma_nodes_for_infos(
    g: Seq<NodeView>,
    infos: Seq<NodeInfoView>,
    opt: OptionsView,
    n: nat,
)
    requires
        all_zero(g),
        n <= infos.len(),
    ensures
        all_zero(nodes_for_infos(g, infos, opt, n).0),
        g.len() <= nodes_for_infos(g, infos, opt, n).0.len(),
        forall|k: int|
            0 <= k < nodes_for_infos(g, infos, opt, n).1.len() ==> (
            #[trigger] nodes_for_infos(g, infos, opt, n).1[k] matches Some(p) ==> p
                < nodes_for_infos(g, infos, opt, n).0.len()),
    decreases n,
{
    if n > 0 {
        lemma_nodes_for_infos(g, infos, opt, (n - 1) as nat);
        let (before, places) = nodes_for_infos(g, infos, opt, (n - 1) as nat);
        if kept(infos[n - 1], opt) {
            lemma_interned(before, infos[n - 1]);
            let (after, place) = interned(before, infos[n - 1]);
            let now = places.push(Some(place));
            assert forall|k: int| 0 <= k < now.len() implies (#[trigger] now[k] matches Some(p)
                ==> p < after.len()) by {
                if k < places.len() {
                    assert(places[k] matches Some(p) ==> p < before.len());
                }
            }
        } else {
            let now = places.push(None);
            assert forall|k: int| 0 <= k < now.len() implies (#[trigger] now[k] matches Some(p)
                ==> p < before.len()) by {
                if k < places.len() {
                    assert(places[k] matches Some(p) ==> p < before.len());
                }
            }
        }
    }
}

proof fn lemma_nodes_for_locations(
    g: Seq<NodeView>,
    locations: Seq<LocationView>,
    opt: OptionsView,
    n: nat,
)
    requires
        all_zero(g),
        n <= locations.len(),
    ensures
        all_zero(nodes_for_locations(g, locations, opt, n).0),
        g.len() <= nodes_for_locations(g, locations, opt, n).0.len(),
        places_in_range(
            nodes_for_locations(g, locations, opt, n).1,
            nodes_for_locations(g, locations, opt, n).0.len(),
        ),
    decreases n,
{
    if n > 0 {
        lemma_nodes_for_locations(g, locations, opt, (n - 1) as nat);
        let (before, table) = nodes_for_locations(g, locations, opt, (n - 1) as nat);
        let infos = location_infos(locations[n - 1], opt);
        lemma_nodes_for_infos(before, infos, opt, infos.len());
        let (after, places) = nodes_for_infos(before, infos, opt, infos.len());
        let now = table.push(places);
        assert forall|i: int, k: int| 0 <= i < now.len() && 0 <= k < now[i].len() implies (
        #[trigger] now[i][k] matches Some(p) ==> p < after.len()) by {
            if i < table.len() {
                assert(table[i][k] matches Some(p) ==> p < before.len());
            } else {
                assert(places[k] matches Some(p) ==> p < after.len());
            }
        }
    }
}

/// What the graph of a profile counts. The inclusive value of a node is
/// the sum of the weights of the samples whose call stack passes the node,
/// each sample counted once; its exclusive value is the sum of the weights
/// of the samples whose leaf it is; the two divisors are the sums of the
/// divisors of the same samples.
pub proof fn lemma_graph_counts(p: ProfileView, opt: OptionsView, node: usize)
    requires
        graph_of(p, opt) is Some,
        node < graph_of(p, opt)->0.len(),
    ensures
        ({
            let g = graph_of(p, opt)->0;
            let table = nodes_for_locations(Seq::empty(), p.location, opt, p.location.len()).1;
            let ids = location_ids(p.location);
            let n = p.sample.len();
            &&& g[node as int].cum == inclusive_sum(p.sample, ids, table, opt, node, n)
            &&& g[node as int].cum_div == inclusive_divisor_sum(p.sample, ids, table, opt, node, n)
            &&& g[node as int].flat == exclusive_sum(p.sample, ids, table, opt, node, n)
            &&& g[node as int].flat_div == exclusive_divisor_sum(
                p.sample,
                ids,
                table,
                opt,
                node,
                n,
            )
        }),
{
    let start = Seq::<NodeView>::empty();
    lemma_nodes_for_locations(start, p.location, opt, p.location.len());
    let (g0, table) = nodes_for_locations(start, p.location, opt, p.location.len());
    let ids = location_ids(p.location);
    if node < g0.len() {
        lemma_samples_count(g0, p.sample, ids, table, opt, node, p.sample.len());
    } else {
        lemma_samples_keep_len(g0, p.sample, ids, table, opt, p.sample.len());
    }
}

/// Counting samples makes no node.
proof fn lemma_samples_keep_len(
    g: Seq<NodeView>,
    samples: Seq<SampleView>,
    ids: Seq<u64>,
    table: Seq<Seq<Option<usize>>>,
    opt: OptionsView,
    n: nat,
)
    requires
        n <= samples.len(),
        places_in_range(table, g.len()),
        with_samples(g, samples, ids, table, opt, n) is Some,
    ensures
        with_samples(g, samples, ids, table, opt, n)->0.len() == g.len(),
    decreases n,
{
    if n > 0 {
        lemma_samples_keep_len(g, samples, ids, table, opt, (n - 1) as nat);
        let before = with_samples(g, samples, ids, table, opt, (n - 1) as nat)->0;
        let s = samples[n - 1];
        if counted(s, opt) {
            let stack = location_ids(s.location);
            lemma_stack_in_range(stack, ids, table, stack.len(), g.len());
            let frames = sample_frames(s, ids, table);
            lemma_walk_counts(
                before,
                frames,
                marks_of(s),
                divisor_of(s, opt),
                weight_of(s, opt),
                frames.len(),
            );
            let st = walked(
                walk_start(before),
                frames,
                marks_of(s),
                divisor_of(s, opt),
                weight_of(s, opt),
                frames.len(),
            )->0;
            match st.parent {
                Some(leaf) if !st.residual => {
                    lemma_touched(
                        st.g,
                        leaf,
                        marks_of(s),
                        divisor_of(s, opt),
                        weight_of(s, opt),
                        true,
                    );
                },
                _ => {},
            }
        }
    }
}

/// What one sample adds to an edge: where its walk goes along the edge,
/// the edge is there afterwards, and its weight and divisor have grown by
/// those of the sample; otherwise the edge is as it was.
pub proof fn lemma_sample_edges(
    g: Seq<NodeView>,
    frames: Seq<Frame>,
    marks: MarksView,
    dw: i64,
    w: i64,
    u: usize,
    v: usize,
)
    requires
        frames_in_range(frames, g.len()),
        with_sample(g, frames, marks, dw, w) is Some,
        u < g.len(),
    ensures
        edge_differs(
            edge_under(with_sample(g, frames, marks, dw, w)->0[u as int].out, v),
            edge_under(g[u as int].out, v),
            calls(frames, u, v),
            dw,
            w,
        ),
{
    lemma_walk_counts(g, frames, marks, dw, w, frames.len());
    assert(frames.take(frames.len() as int) =~= frames);
    let st = walked(walk_start(g), frames, marks, dw, w, frames.len())->0;
    assert(edge_differs(
        edge_under(st.g[u as int].out, v),
        edge_under(g[u as int].out, v),
        calls(frames, u, v),
        dw,
        w,
    ));
    match st.parent {
        Some(leaf) if !st.residual => {
            lemma_touched(st.g, leaf, marks, dw, w, true);
            if leaf != u {
                assert(touched(st.g, leaf, marks, dw, w, true)->0[u as int] == st.g[u as int]);
            }
        },
        _ => {},
    }
}

/// The sum of the weights of those of the first `n` samples that are
/// counted and whose walk goes from the node at place `u` to the node at
/// place `v`.
pub open spec fn edge_sum(
    samples: Seq<SampleView>,
    ids: Seq<u64>,
    table: Seq<Seq<Option<usize>>>,
    opt: OptionsView,
    u: usize,
    v: usize,
    n: nat,
) -> int
    decreases n,
{
    if n == 0 {
        0
    } else {
        let s = samples[n - 1];
        edge_sum(samples, ids, table, opt, u, v, (n - 1) as nat) + when(
            counted(s, opt) && calls(sample_frames(s, ids, table), u, v),
            weight_of(s, opt),
        )
    }
}

/// The sum of the divisors of those of the first `n` samples that are
/// counted and whose walk goes from the node at place `u` to the node at
/// place `v`.
pub open spec fn edge_divisor_sum(
    samples: Seq<SampleView>,
    ids: Seq<u64>,
    table: Seq<Seq<Option<usize>>>,
    opt: OptionsView,
    u: usize,
    v: usize,
    n: nat,
) -> int
    decreases n,
{
    if n == 0 {
        0
    } else {
        let s = samples[n - 1];
        edge_divisor_sum(samples, ids, table, opt, u, v, (n - 1) as nat) + when(
            counted(s, opt) && calls(sample_frames(s, ids, table), u, v),
            divisor_of(s, opt),
        )
    }
}

/// Whether the walk of one of the first `n` samples that are counted
/// goes from the node at place `u` to the node at place `v`.
pub open spec fn called(
    samples: Seq<SampleView>,
    ids: Seq<u64>,
    table: Seq<Seq<Option<usize>>>,
    opt: OptionsView,
    u: usize,
    v: usize,
    n: nat,
) -> bool
    decreases n,
{
    if n == 0 {
        false
    } else {
        let s = samples[n - 1];
        called(samples, ids, table, opt, u, v, (n - 1) as nat) || (counted(s, opt) && calls(
            sample_frames(s, ids, table),
            u,
            v,
        ))
    }
}

/// What the first `n` samples add to an edge.
proof fn lemma_samples_edges(
    g: Seq<NodeView>,
    samples: Seq<SampleView>,
    ids: Seq<u64>,
    table: Seq<Seq<Option<usize>>>,
    opt: OptionsView,
    u: usize,
    v: usize,
    n: nat,
)
    requires
        n <= samples.len(),
        places_in_range(table, g.len()),
        with_samples(g, samples, ids, table, opt, n) is Some,
        u < g.len(),
    ensures
        ({
            let after = edge_under(with_samples(g, samples, ids, table, opt, n)->0[u as int].out, v);
            let before = edge_under(g[u as int].out, v);
            &&& weight_of_edge(after) == weight_of_edge(before) + edge_sum(
                samples,
                ids,
                table,
                opt,
                u,
                v,
                n,
            )
            &&& divisor_of_edge(after) == divisor_of_edge(before) + edge_divisor_sum(
                samples,
                ids,
                table,
                opt,
                u,
                v,
                n,
            )
            &&& after is Some <==> before is Some || called(samples, ids, table, opt, u, v, n)
        }),
    decreases n,
{
    if n > 0 {
        lemma_samples_edges(g, samples, ids, table, opt, u, v, (n - 1) as nat);
        lemma_samples_keep_len(g, samples, ids, table, opt, (n - 1) as nat);
        let before = with_samples(g, samples, ids, table, opt, (n - 1) as nat)->0;
        let s = samples[n - 1];
        if counted(s, opt) {
            let stack = location_ids(s.location);
            lemma_stack_in_range(stack, ids, table, stack.len(), g.len());
            lemma_sample_edges(
                before,
                sample_frames(s, ids, table),
                marks_of(s),
                divisor_of(s, opt),
                weight_of(s, opt),
                u,
                v,
            );
        }
    }
}

/// What the edges of the graph of a profile count. There is an edge
/// from one node to another exactly if the call stack of some sample goes
/// from the one to the other; its weight is the sum of the weights of
/// those samples, each counted once, and its divisor the sum of their
/// divisors.
pub proof fn lemma_graph_edges(p: ProfileView, opt: OptionsView, u: usize, v: usize)
    requires
        graph_of(p, opt) is Some,
        u < graph_of(p, opt)->0.len(),
    ensures
        ({
            let g = graph_of(p, opt)->0;
            let table = nodes_for_locations(Seq::empty(), p.location, opt, p.location.len()).1;
            let ids = location_ids(p.location);
            let n = p.sample.len();
            match edge_under(g[u as int].out, v) {
                Some(e) => called(p.sample, ids, table, opt, u, v, n) && e.weight == edge_sum(
                    p.sample,
                    ids,
                    table,
                    opt,
                    u,
                    v,
                    n,
                ) && e.weight_div == edge_divisor_sum(p.sample, ids, table, opt, u, v, n),
                None => !called(p.sample, ids, table, opt, u, v, n),
            }
        }),
{
    let start = Seq::<NodeView>::empty();
    lemma_nodes_for_locations(start, p.location, opt, p.location.len());
    let (g0, table) = nodes_for_locations(start, p.location, opt, p.location.len());
    let ids = location_ids(p.location);
    lemma_samples_keep_len(g0, p.sample, ids, table, opt, p.sample.len());
    lemma_samples_edges(g0, p.sample, ids, table, opt, u, v, p.sample.len());
    assert(g0[u as int].out == Map::<usize, Edge>::empty());
}

} // verus!
