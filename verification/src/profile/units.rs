//! The units of the numeric labels of a profile.

use crate::errors::RockError;
use crate::keyed::{has_key, insert_model, keys_of, lemma_insert_model, lookup, KeyedList};
use crate::profile::sample::{Sample, SampleView};
use crate::profile::{views, Profile};
use crate::text::{compare_text, strictly_ascending, Order};
use vstd::prelude::*;
use vstd::string::StringExecFns;

verus! {

/// The units of a list that are not empty, in their order.
pub open spec fn nonempty_units(list: Seq<Seq<char>>) -> Seq<Seq<char>>
    decreases list.len(),
{
    if list.len() == 0 {
        Seq::empty()
    } else if list.last().len() > 0 {
        nonempty_units(list.drop_last()).push(list.last())
    } else {
        nonempty_units(list.drop_last())
    }
}

/// The units that a sample gives for a key: where the key is among its
/// numeric labels, the units under the key that are not empty.
pub open spec fn sample_units(s: SampleView, key: Seq<char>) -> Seq<Seq<char>> {
    if has_key(s.num_label, key) {
        match lookup(s.num_unit_label, key) {
            Some(list) => nonempty_units(list),
            None => Seq::empty(),
        }
    } else {
        Seq::empty()
    }
}

/// The units that the samples give for a key, in the order of the samples.
pub open spec fn units_seen(samples: Seq<SampleView>, key: Seq<char>) -> Seq<Seq<char>>
    decreases samples.len(),
{
    if samples.len() == 0 {
        Seq::empty()
    } else {
        units_seen(samples.drop_last(), key) + sample_units(samples.last(), key)
    }
}

/// Whether a key is among the numeric labels of some sample.
pub open spec fn encountered(samples: Seq<SampleView>, key: Seq<char>) -> bool
    decreases samples.len(),
{
    if samples.len() == 0 {
        false
    } else {
        encountered(samples.drop_last(), key) || has_key(samples.last().num_label, key)
    }
}

/// The unit of a key for which the samples give none: bytes for the keys
/// `alignment` and `request`, the key itself for the others.
pub open spec fn inferred_unit(key: Seq<char>) -> Seq<char> {
    if key == "alignment"@ || key == "request"@ {
        "bytes"@
    } else {
        key
    }
}

/// The unit of a key: the first unit that the samples give for it, or the
/// inferred unit.
pub open spec fn chosen_unit(samples: Seq<SampleView>, key: Seq<char>) -> Seq<char> {
    if units_seen(samples, key).len() > 0 {
        units_seen(samples, key)[0]
    } else {
        inferred_unit(key)
    }
}

/// Whether the samples give a unit for a key that is not the chosen one.
pub open spec fn is_ignored(samples: Seq<SampleView>, key: Seq<char>, unit: Seq<char>) -> bool {
    units_seen(samples, key).contains(unit) && unit != chosen_unit(samples, key)
}

/// What the map of ignored units holds for a key: the ignored units, each
/// once and in ascending order, where there are any, and nothing where
/// there are none.
pub open spec fn ignored_entry(
    entry: Option<Seq<Seq<char>>>,
    samples: Seq<SampleView>,
    key: Seq<char>,
) -> bool {
    match entry {
        Some(list) => list.len() > 0 && strictly_ascending(list) && forall|u: Seq<char>|
            list.contains(u) <==> is_ignored(samples, key, u),
        None => forall|u: Seq<char>| !is_ignored(samples, key, u),
    }
}

/// A key that no sample has gets no unit from the samples.
pub proof fn lemma_unseen(samples: Seq<SampleView>, key: Seq<char>)
    requires
        !encountered(samples, key),
    ensures
        units_seen(samples, key) == Seq::<Seq<char>>::empty(),
    decreases samples.len(),
{
    if samples.len() > 0 {
        lemma_unseen(samples.drop_last(), key);
        assert(units_seen(samples, key) =~= Seq::<Seq<char>>::empty());
    }
}

/// The keys of the first entries and of one more.
proof fn lemma_has_key_take<W>(m: Seq<(Seq<char>, W)>, j: int, key: Seq<char>)
    requires
        0 <= j < m.len(),
    ensures
        has_key(m.take(j + 1), key) <==> has_key(m.take(j), key) || m[j].0 == key,
{
    if has_key(m.take(j + 1), key) {
        let t = choose|t: int| 0 <= t < m.take(j + 1).len() && (#[trigger] m.take(j + 1)[t]).0 == key;
        if t < j {
            assert(m.take(j)[t].0 == key);
        }
    }
    if has_key(m.take(j), key) {
        let t = choose|t: int| 0 <= t < m.take(j).len() && (#[trigger] m.take(j)[t]).0 == key;
        assert(m.take(j + 1)[t].0 == key);
    }
    if m[j].0 == key {
        assert(m.take(j + 1)[j].0 == key);
    }
}

/// All the keys of the numeric labels of the samples.
fn collect_keys(samples: &Vec<Sample>) -> (keys: KeyedList<bool>)
    ensures
        strictly_ascending(keys_of(keys.model())),
        forall|k: Seq<char>| has_key(keys.model(), k) <==> encountered(views(samples@), k),
{
    let mut keys: KeyedList<bool> = KeyedList::new();
    let ghost all = views(samples@);
    let mut i: usize = 0;
    assert(all.take(0) =~= Seq::<SampleView>::empty());
    assert(keys_of(keys.model()) =~= Seq::<Seq<char>>::empty());
    while i < samples.len()
        invariant
            i <= samples.len(),
            all == views(samples@),
            strictly_ascending(keys_of(keys.model())),
            forall|k: Seq<char>| has_key(keys.model(), k) <==> encountered(all.take(i as int), k),
        decreases samples.len() - i,
    {
        let s = &samples[i];
        let ghost m = s.num_label.model();
        assert(m == all[i as int].num_label);
        let n = s.num_label.len();
        let mut j: usize = 0;
        assert forall|k: Seq<char>| !has_key(m.take(0), k) by {
            assert(m.take(0).len() == 0);
        }
        while j < n
            invariant
                j <= n,
                n == m.len(),
                m == s.num_label.model(),
                strictly_ascending(keys_of(keys.model())),
                forall|k: Seq<char>|
                    has_key(keys.model(), k) <==> encountered(all.take(i as int), k) || has_key(
                        m.take(j as int),
                        k,
                    ),
            decreases n - j,
        {
            let key = s.num_label.key_at(j).clone();
            let ghost before = keys.model();
            proof {
                lemma_insert_model(before, key@, true);
                assert forall|k: Seq<char>|
                    has_key(m.take(j + 1), k) <==> has_key(m.take(j as int), k) || m[j as int].0
                        == k by {
                    lemma_has_key_take(m, j as int, k);
                }
            }
            keys.insert(key, true);
            assert(keys.model() == insert_model(before, m[j as int].0, true));
            j += 1;
        }
        i += 1;
        proof {
            assert(m.take(n as int) =~= m);
            assert(all.take(i as int).drop_last() =~= all.take(i - 1));
            assert(all.take(i as int).last() == all[i - 1]);
        }
    }
    assert(all.take(i as int) =~= all);
    keys
}

/// The units that the samples give for a key.
fn collect_units(samples: &Vec<Sample>, key: &str) -> (seen: Vec<String>)
    ensures
        seen.deep_view() == units_seen(views(samples@), key@),
{
    let mut seen: Vec<String> = Vec::new();
    let ghost all = views(samples@);
    let mut i: usize = 0;
    assert(all.take(0) =~= Seq::<SampleView>::empty());
    assert(seen.deep_view() =~= Seq::<Seq<char>>::empty());
    while i < samples.len()
        invariant
            i <= samples.len(),
            all == views(samples@),
            seen.deep_view() == units_seen(all.take(i as int), key@),
        decreases samples.len() - i,
    {
        let s = &samples[i];
        assert(all[i as int] == s@);
        let ghost base = seen.deep_view();
        proof {
            assert(all.take(i + 1).drop_last() =~= all.take(i as int));
            assert(all.take(i + 1).last() == s@);
        }
        if s.num_label.contains_key(key) {
            match s.num_unit_label.get(key) {
                Some(list) => {
                    let ghost units = list.deep_view();
                    let mut t: usize = 0;
                    assert(units.take(0) =~= Seq::<Seq<char>>::empty());
                    assert(seen.deep_view() =~= base + nonempty_units(units.take(0)));
                    while t < list.len()
                        invariant
                            t <= list.len(),
                            units == list.deep_view(),
                            seen.deep_view() == base + nonempty_units(units.take(t as int)),
                        decreases list.len() - t,
                    {
                        let ghost before = seen.deep_view();
                        proof {
                            assert(units.take(t + 1).drop_last() =~= units.take(t as int));
                            assert(units.take(t + 1).last() == list[t as int]@);
                        }
                        if !list[t].as_str().is_empty() {
                            seen.push(list[t].clone());
                            assert(seen.deep_view() =~= before.push(list[t as int]@));
                        }
                        t += 1;
                        assert(seen.deep_view() =~= base + nonempty_units(units.take(t as int)));
                    }
                    assert(units.take(t as int) =~= units);
                },
                None => {
                    assert(seen.deep_view() =~= base + Seq::<Seq<char>>::empty());
                },
            }
        } else {
            assert(seen.deep_view() =~= base + Seq::<Seq<char>>::empty());
        }
        i += 1;
    }
    assert(all.take(i as int) =~= all);
    seen
}

/// The units of a list other than `chosen`, each once and in ascending
/// order.
fn others_sorted(seen: &Vec<String>, chosen: &str) -> (r: Vec<String>)
    ensures
        strictly_ascending(r.deep_view()),
        forall|u: Seq<char>|
            #[trigger] r.deep_view().contains(u) <==> seen.deep_view().contains(u) && u != chosen@,
{
    let mut set: KeyedList<bool> = KeyedList::new();
    let ghost units = seen.deep_view();
    let mut t: usize = 0;
    assert(keys_of(set.model()) =~= Seq::<Seq<char>>::empty());
    assert forall|u: Seq<char>| !has_key(set.model(), u) by {
        assert(set.model().len() == 0);
    }
    while t < seen.len()
        invariant
            t <= seen.len(),
            units == seen.deep_view(),
            strictly_ascending(keys_of(set.model())),
            forall|u: Seq<char>|
                has_key(set.model(), u) <==> units.take(t as int).contains(u) && u != chosen@,
        decreases seen.len() - t,
    {
        let ghost before = set.model();
        proof {
            let now = units.take(t + 1);
            assert forall|u: Seq<char>|
                now.contains(u) <==> units.take(t as int).contains(u) || u == units[t as int] by {
                if now.contains(u) {
                    let x = choose|x: int| 0 <= x < now.len() && now[x] == u;
                    if x < t {
                        assert(units.take(t as int)[x] == u);
                    }
                }
                if units.take(t as int).contains(u) {
                    let x = choose|x: int|
                        0 <= x < units.take(t as int).len() && units.take(t as int)[x] == u;
                    assert(now[x] == u);
                }
                if u == units[t as int] {
                    assert(now[t as int] == u);
                }
            }
        }
        match compare_text(seen[t].as_str(), chosen) {
            Order::Same => {},
            _ => {
                proof {
                    lemma_insert_model(before, units[t as int], true);
                }
                set.insert(seen[t].clone(), true);
                assert(set.model() == insert_model(before, units[t as int], true));
            },
        }
        t += 1;
    }
    assert(units.take(t as int) =~= units);
    let ghost m = set.model();
    assert forall|u: Seq<char>| has_key(m, u) <==> units.contains(u) && u != chosen@ by {
        assert(has_key(set.model(), u) <==> units.take(t as int).contains(u) && u != chosen@);
    }
    let mut out: Vec<String> = Vec::new();
    let n = set.len();
    let mut i: usize = 0;
    while i < n
        invariant
            i <= n,
            n == m.len(),
            m == set.model(),
            out.len() == i,
            units == seen.deep_view(),
            strictly_ascending(keys_of(m)),
            forall|u: Seq<char>| has_key(m, u) <==> units.contains(u) && u != chosen@,
            forall|j: int| 0 <= j < i ==> out[j]@ == m[j].0,
        decreases n - i,
    {
        out.push(set.key_at(i).clone());
        i += 1;
    }
    proof {
        assert(out.deep_view() =~= keys_of(m));
        assert forall|u: Seq<char>|
            #[trigger] out.deep_view().contains(u) <==> seen.deep_view().contains(u) && u
                != chosen@ by {
            assert(has_key(m, u) <==> units.contains(u) && u != chosen@);
            if out.deep_view().contains(u) {
                let x = choose|x: int| 0 <= x < keys_of(m).len() && keys_of(m)[x] == u;
                assert(m[x].0 == u);
            }
            if has_key(m, u) {
                let x = choose|x: int| 0 <= x < m.len() && (#[trigger] m[x]).0 == u;
                assert(keys_of(m)[x] == u);
            }
        }
    }
    out
}

/// The map of units holds the chosen unit for each key of `done`, and
/// nothing else.
pub open spec fn units_done(
    units: Seq<(Seq<char>, Seq<char>)>,
    done: Seq<(Seq<char>, bool)>,
    samples: Seq<SampleView>,
) -> bool {
    forall|k: Seq<char>|
        #[trigger] lookup(units, k) == (if has_key(done, k) {
            Some(chosen_unit(samples, k))
        } else {
            None
        })
}

/// The map of ignored units holds what it has to for each key of `done`,
/// and nothing else.
pub open spec fn ignored_done(
    ignored: Seq<(Seq<char>, Seq<Seq<char>>)>,
    done: Seq<(Seq<char>, bool)>,
    samples: Seq<SampleView>,
) -> bool {
    forall|k: Seq<char>|
        if has_key(done, k) {
            ignored_entry(#[trigger] lookup(ignored, k), samples, k)
        } else {
            lookup(ignored, k).is_none()
        }
}

proof fn lemma_nothing_done(
    units: Seq<(Seq<char>, Seq<char>)>,
    ignored: Seq<(Seq<char>, Seq<Seq<char>>)>,
    km: Seq<(Seq<char>, bool)>,
    samples: Seq<SampleView>,
)
    requires
        units.len() == 0,
        ignored.len() == 0,
    ensures
        units_done(units, km.take(0), samples),
        ignored_done(ignored, km.take(0), samples),
{
    assert(km.take(0).len() == 0);
}

proof fn lemma_units_step(
    units: Seq<(Seq<char>, Seq<char>)>,
    km: Seq<(Seq<char>, bool)>,
    j: int,
    samples: Seq<SampleView>,
)
    requires
        0 <= j < km.len(),
        strictly_ascending(keys_of(units)),
        units_done(units, km.take(j), samples),
    ensures
        units_done(
            insert_model(units, km[j].0, chosen_unit(samples, km[j].0)),
            km.take(j + 1),
            samples,
        ),
{
    let key = km[j].0;
    let next = insert_model(units, key, chosen_unit(samples, key));
    lemma_insert_model(units, key, chosen_unit(samples, key));
    assert forall|k: Seq<char>|
        #[trigger] lookup(next, k) == (if has_key(km.take(j + 1), k) {
            Some(chosen_unit(samples, k))
        } else {
            None
        }) by {
        lemma_has_key_take(km, j, k);
        if k != key {
            assert(lookup(next, k) == lookup(units, k));
        }
    }
}

proof fn lemma_ignored_step(
    ignored: Seq<(Seq<char>, Seq<Seq<char>>)>,
    km: Seq<(Seq<char>, bool)>,
    j: int,
    samples: Seq<SampleView>,
    others: Seq<Seq<char>>,
)
    requires
        0 <= j < km.len(),
        strictly_ascending(keys_of(km)),
        strictly_ascending(keys_of(ignored)),
        ignored_done(ignored, km.take(j), samples),
        strictly_ascending(others),
        forall|u: Seq<char>| others.contains(u) <==> is_ignored(samples, km[j].0, u),
    ensures
        others.len() > 0 ==> ignored_done(
            insert_model(ignored, km[j].0, others),
            km.take(j + 1),
            samples,
        ),
        others.len() == 0 ==> ignored_done(ignored, km.take(j + 1), samples),
{
    let key = km[j].0;
    assert(!has_key(km.take(j), key)) by {
        if has_key(km.take(j), key) {
            let t = choose|t: int| 0 <= t < km.take(j).len() && (#[trigger] km.take(j)[t]).0 == key;
            assert(crate::text::text_lt(keys_of(km)[t], keys_of(km)[j]));
            crate::text::lemma_order_facts(km[t].0, km[j].0);
        }
    }
    assert(lookup(ignored, key).is_none());
    if others.len() > 0 {
        let next = insert_model(ignored, key, others);
        lemma_insert_model(ignored, key, others);
        assert forall|k: Seq<char>|
            if has_key(km.take(j + 1), k) {
                ignored_entry(#[trigger] lookup(next, k), samples, k)
            } else {
                lookup(next, k).is_none()
            } by {
            lemma_has_key_take(km, j, k);
            if k != key {
                assert(lookup(next, k) == lookup(ignored, k));
            }
        }
    } else {
        assert forall|u: Seq<char>| !is_ignored(samples, key, u) by {
            if is_ignored(samples, key, u) {
                assert(others.contains(u));
            }
        }
        assert forall|k: Seq<char>|
            if has_key(km.take(j + 1), k) {
                ignored_entry(#[trigger] lookup(ignored, k), samples, k)
            } else {
                lookup(ignored, k).is_none()
            } by {
            lemma_has_key_take(km, j, k);
        }
    }
}

proof fn lemma_all_done(
    units: Seq<(Seq<char>, Seq<char>)>,
    ignored: Seq<(Seq<char>, Seq<Seq<char>>)>,
    km: Seq<(Seq<char>, bool)>,
    samples: Seq<SampleView>,
)
    requires
        units_done(units, km, samples),
        ignored_done(ignored, km, samples),
        forall|k: Seq<char>| has_key(km, k) <==> encountered(samples, k),
    ensures
        forall|k: Seq<char>|
            #[trigger] lookup(units, k) == (if encountered(samples, k) {
                Some(chosen_unit(samples, k))
            } else {
                None
            }),
        forall|k: Seq<char>| ignored_entry(#[trigger] lookup(ignored, k), samples, k),
{
    assert forall|k: Seq<char>| ignored_entry(#[trigger] lookup(ignored, k), samples, k) by {
        if !has_key(km, k) {
            lemma_unseen(samples, k);
        }
    }
}

/// The unit of a key for which the samples give none.
fn infer_unit(key: &str) -> (r: String)
    ensures
        r@ == inferred_unit(key@),
{
    let is_alignment = match compare_text(key, "alignment") {
        Order::Same => true,
        _ => false,
    };
    let is_request = match compare_text(key, "request") {
        Order::Same => true,
        _ => false,
    };
    if is_alignment || is_request {
        String::from_str("bytes")
    } else {
        String::from_str(key)
    }
}

impl Profile {
    /// The units of the numeric labels. The first map gives each key of
    /// a numeric label its unit: the first unit that the samples give for
    /// the key, or, where they give none, bytes for the keys `alignment`
    /// and `request` and the key itself for the others. The second map
    /// gives each key for which the samples give other units as well those
    /// units, each once and in ascending order.
    pub fn num_label_units(&self) -> (r: Result<
        (KeyedList<String>, KeyedList<Vec<String>>),
        RockError,
    >)
        ensures
            r matches Ok(maps) && {
                let units = maps.0.model();
                let ignored = maps.1.model();
                &&& strictly_ascending(keys_of(units))
                &&& strictly_ascending(keys_of(ignored))
                &&& forall|k: Seq<char>|
                    #[trigger] lookup(units, k) == (if encountered(self@.sample, k) {
                        Some(chosen_unit(self@.sample, k))
                    } else {
                        None
                    })
                &&& forall|k: Seq<char>|
                    ignored_entry(#[trigger] lookup(ignored, k), self@.sample, k)
            },
    {
        let keys = collect_keys(&self.sample);
        let ghost all = self@.sample;
        let ghost km = keys.model();
        let mut units: KeyedList<String> = KeyedList::new();
        let mut ignored: KeyedList<Vec<String>> = KeyedList::new();
        let n = keys.len();
        let mut j: usize = 0;
        proof {
            assert(keys_of(units.model()) =~= Seq::<Seq<char>>::empty());
            assert(keys_of(ignored.model()) =~= Seq::<Seq<char>>::empty());
            lemma_nothing_done(units.model(), ignored.model(), km, all);
        }
        while j < n
            invariant
                j <= n,
                n == km.len(),
                km == keys.model(),
                all == views(self.sample@),
                strictly_ascending(keys_of(km)),
                forall|k: Seq<char>| has_key(km, k) <==> encountered(all, k),
                strictly_ascending(keys_of(units.model())),
                strictly_ascending(keys_of(ignored.model())),
                units_done(units.model(), km.take(j as int), all),
                ignored_done(ignored.model(), km.take(j as int), all),
            decreases n - j,
        {
            let key = keys.key_at(j);
            let seen = collect_units(&self.sample, key.as_str());
            let chosen = if seen.len() > 0 {
                assert(seen.deep_view()[0] == seen[0]@);
                seen[0].clone()
            } else {
                infer_unit(key.as_str())
            };
            let others = others_sorted(&seen, chosen.as_str());
            proof {
                lemma_units_step(units.model(), km, j as int, all);
                lemma_ignored_step(ignored.model(), km, j as int, all, others.deep_view());
            }
            units.insert(key.clone(), chosen);
            if others.len() > 0 {
                ignored.insert(key.clone(), others);
            }
            j += 1;
        }
        proof {
            assert(km.take(j as int) =~= km);
            lemma_all_done(units.model(), ignored.model(), km, all);
        }
        Ok((units, ignored))
    }
}

} // verus!
