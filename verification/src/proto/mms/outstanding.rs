//! The confirmed requests that wait for an answer.

use std::collections::BTreeMap;
use vstd::prelude::*;
use vstd::std_specs::cmp::OrdSpec;
use vstd::std_specs::iter::IteratorSpec;
use crate::common::Instant;

verus! {

broadcast use vstd::std_specs::btree::group_btree_axioms;

/// Invoke identifiers, and when each request stops being worth waiting for.
#[derive(Debug)]
pub struct Outstanding {
    map: BTreeMap<i64, Instant>,
}

impl View for Outstanding {
    type V = Map<i64, Instant>;

    closed spec fn view(&self) -> Map<i64, Instant> {
        self.map@
    }
}

/// Whether identifiers stand in ascending order, none twice.
pub open spec fn increases(s: Seq<i64>) -> bool {
    forall|i: int, j: int| 0 <= i < j < s.len() ==> s[i] < s[j]
}

/// Whether a sequence holds exactly the identifiers of a set.
pub open spec fn lists(s: Seq<i64>, ids: Set<i64>) -> bool {
    forall|id: i64| #[trigger] s.contains(id) <==> ids.contains(id)
}

/// The identifiers of a set, in ascending order.
pub open spec fn ascending(ids: Set<i64>) -> Seq<i64> {
    choose|s: Seq<i64>| increases(s) && #[trigger] lists(s, ids)
}

/// The requests whose time is up.
pub open spec fn due(m: Map<i64, Instant>, now: Instant) -> Set<i64> {
    m.dom().filter(|id: i64| now.nanos >= m[id].nanos)
}

/// Whether `t` is the first instant at which a request's time is up.
pub open spec fn is_earliest(m: Map<i64, Instant>, t: Option<Instant>) -> bool {
    match t {
        None => forall|id: i64| !#[trigger] m.contains_key(id),
        Some(t) => {
            &&& exists|id: i64| #[trigger] m.contains_key(id) && m[id] == t
            &&& forall|id: i64| #[trigger] m.contains_key(id) ==> t.nanos <= m[id].nanos
        },
    }
}

/// The first instant at which a request's time is up, if any waits.
pub open spec fn earliest(m: Map<i64, Instant>) -> Option<Instant> {
    choose|t: Option<Instant>| #[trigger] is_earliest(m, t)
}

/// There is one first instant.
pub proof fn lemma_earliest(m: Map<i64, Instant>, t: Option<Instant>)
    requires
        is_earliest(m, t),
    ensures
        earliest(m) == t,
{
    assert(is_earliest(m, earliest(m)));
}

/// There is one ascending order.
pub proof fn lemma_ascending(s: Seq<i64>, ids: Set<i64>)
    requires
        increases(s),
        lists(s, ids),
    ensures
        ascending(ids) == s,
{
    let t = ascending(ids);
    assert(increases(t) && lists(t, ids));
    lemma_same_order(s, t);
}

proof fn lemma_same_order(s: Seq<i64>, t: Seq<i64>)
    requires
        increases(s),
        increases(t),
        forall|id: i64| #[trigger] s.contains(id) <==> t.contains(id),
    ensures
        s == t,
    decreases s.len(),
{
    if s.len() == 0 {
        if t.len() > 0 {
            assert(t.contains(t[0]));
            assert(s.contains(t[0]));
        }
        assert(s =~= t);
    } else {
        assert(s.contains(s.last()));
        assert(t.contains(s.last()));
        assert(t.contains(t.last()));
        assert(s.contains(t.last()));
        let i = choose|i: int| 0 <= i < t.len() && t[i] == s.last();
        let j = choose|j: int| 0 <= j < s.len() && s[j] == t.last();
        assert(s.last() == t.last());
        let s1 = s.drop_last();
        let t1 = t.drop_last();
        assert forall|id: i64| #[trigger] s1.contains(id) <==> t1.contains(id) by {
            if s1.contains(id) {
                let k = choose|k: int| 0 <= k < s1.len() && s1[k] == id;
                assert(s.contains(s[k]));
                assert(t.contains(id));
                let l = choose|l: int| 0 <= l < t.len() && t[l] == id;
                assert(t1[l] == id);
            }
            if t1.contains(id) {
                let k = choose|k: int| 0 <= k < t1.len() && t1[k] == id;
                assert(t.contains(t[k]));
                assert(s.contains(id));
                let l = choose|l: int| 0 <= l < s.len() && s[l] == id;
                assert(s1[l] == id);
            }
        }
        lemma_same_order(s1, t1);
        assert(s =~= s1.push(s.last()));
        assert(t =~= t1.push(t.last()));
    }
}

proof fn lemma_greatest(ids: Set<i64>) -> (m: i64)
    requires
        ids.finite(),
        ids.len() > 0,
    ensures
        ids.contains(m),
        forall|id: i64| #[trigger] ids.contains(id) ==> id <= m,
    decreases ids.len(),
{
    let x = ids.choose();
    let rest = ids.remove(x);
    if rest.len() == 0 {
        assert forall|id: i64| #[trigger] ids.contains(id) implies id <= x by {
            if id != x {
                assert(rest.contains(id));
                vstd::set_lib::lemma_set_empty_equivalency_len(rest);
            }
        }
        x
    } else {
        let y = lemma_greatest(rest);
        let m = if x > y {
            x
        } else {
            y
        };
        assert forall|id: i64| #[trigger] ids.contains(id) implies id <= m by {
            if id != x {
                assert(rest.contains(id));
            }
        }
        m
    }
}

proof fn lemma_in_order(ids: Set<i64>) -> (s: Seq<i64>)
    requires
        ids.finite(),
    ensures
        increases(s),
        lists(s, ids),
    decreases ids.len(),
{
    if ids.len() == 0 {
        vstd::set_lib::lemma_set_empty_equivalency_len(ids);
        Seq::empty()
    } else {
        let m = lemma_greatest(ids);
        let front = lemma_in_order(ids.remove(m));
        let s = front.push(m);
        assert forall|i: int| 0 <= i < front.len() implies #[trigger] front[i] < m by {
            assert(front.contains(front[i]));
            assert(ids.remove(m).contains(front[i]));
        }
        assert forall|id: i64| #[trigger] s.contains(id) <==> ids.contains(id) by {
            if ids.contains(id) && id != m {
                assert(ids.remove(m).contains(id));
                assert(front.contains(id));
                let k = choose|k: int| 0 <= k < front.len() && front[k] == id;
                assert(s[k] == id);
            }
            if id == m {
                assert(s[front.len() as int] == m);
            }
            if s.contains(id) && id != m {
                let k = choose|k: int| 0 <= k < s.len() && s[k] == id;
                assert(front[k] == id);
                assert(front.contains(id));
                assert(ids.remove(m).contains(id));
            }
        }
        s
    }
}

/// Finitely many identifiers have an ascending order.
pub proof fn lemma_ascends(ids: Set<i64>)
    requires
        ids.finite(),
    ensures
        increases(ascending(ids)),
        lists(ascending(ids), ids),
{
    let s = lemma_in_order(ids);
    lemma_ascending(s, ids);
}

/// Whether the time of a request is up, by the first `n` entries.
spec fn is_due(all: Seq<(i64, Instant)>, n: int, now: Instant, id: i64) -> bool {
    exists|j: int| 0 <= j < n && (#[trigger] all[j]).0 == id && now.nanos >= all[j].1.nanos
}

impl Outstanding {
    /// No request.
    pub fn new() -> (r: Outstanding)
        ensures
            r@ == Map::<i64, Instant>::empty(),
    {
        Outstanding { map: BTreeMap::new() }
    }

    /// How many requests wait.
    pub fn len(&self) -> (r: usize)
        ensures
            r == self@.len(),
    {
        self.map.len()
    }

    /// Whether a request waits under an identifier.
    pub fn contains(&self, id: i64) -> (r: bool)
        ensures
            r == self@.contains_key(id),
    {
        self.map.contains_key(&id)
    }

    /// A request waits until `deadline`.
    pub fn insert(&mut self, id: i64, deadline: Instant)
        ensures
            final(self)@ == old(self)@.insert(id, deadline),
    {
        self.map.insert(id, deadline);
    }

    /// A request no longer waits.
    pub fn remove(&mut self, id: i64)
        ensures
            final(self)@ == old(self)@.remove(id),
    {
        self.map.remove(&id);
    }

    /// No request waits any more.
    pub fn clear(&mut self)
        ensures
            final(self)@ == Map::<i64, Instant>::empty(),
    {
        self.map.clear();
    }

    /// The requests and their deadlines, by ascending identifier.
    fn entries(&self) -> (r: Vec<(i64, Instant)>)
        ensures
            forall|i: int, j: int| 0 <= i < j < r@.len() ==> r@[i].0 < r@[j].0,
            forall|i: int|
                0 <= i < r@.len() ==> self@.contains_key((#[trigger] r@[i]).0) && self@[r@[i].0]
                    == r@[i].1,
            forall|id: i64| #[trigger]
                self@.contains_key(id) ==> exists|i: int|
                    0 <= i < r@.len() && (#[trigger] r@[i]).0 == id,
    {
        let mut out: Vec<(i64, Instant)> = Vec::new();
        let iter = self.map.iter();
        let ghost all = iter.remaining();
        let ghost keys = all.map_values(|kv: (&i64, &Instant)| *kv.0);
        for kv in it: iter
            invariant
                it.seq() == all,
                out@.len() == it.index(),
                forall|j: int|
                    0 <= j < out@.len() ==> (#[trigger] out@[j]) == (*all[j].0, *all[j].1),
        {
            out.push((*kv.0, *kv.1));
        }
        proof {
            assert(vstd::std_specs::btree::increasing_seq(keys));
            assert forall|i: int, j: int| 0 <= i < j < out@.len() implies out@[i].0
                < out@[j].0 by {
                assert(keys[i] == out@[i].0 && keys[j] == out@[j].0);
                assert(keys[i].cmp_spec(&keys[j]) is Less);
            }
            assert forall|id: i64| #[trigger] self@.contains_key(id) implies exists|i: int|
                0 <= i < out@.len() && (#[trigger] out@[i]).0 == id by {
                assert(all.contains((&id, &self.map@[id])));
                let i = choose|i: int| 0 <= i < all.len() && all[i] == (&id, &self.map@[id]);
                assert(out@[i].0 == id);
            }
        }
        out
    }

    /// The requests whose time is up, by ascending identifier.
    pub fn expired(&self, now: Instant) -> (r: Vec<i64>)
        ensures
            r@ == ascending(due(self@, now)),
            increases(r@),
            lists(r@, due(self@, now)),
    {
        let all = self.entries();
        let mut out: Vec<i64> = Vec::new();
        let mut i: usize = 0;
        while i < all.len()
            invariant
                i <= all.len(),
                forall|i: int, j: int| 0 <= i < j < all@.len() ==> all@[i].0 < all@[j].0,
                increases(out@),
                forall|k: int, j: int|
                    0 <= k < out@.len() && i <= j < all@.len() ==> out@[k] < all@[j].0,
                forall|j: int|
                    0 <= j < i && now.nanos >= (#[trigger] all@[j]).1.nanos ==> out@.contains(
                        all@[j].0,
                    ),
                forall|k: int|
                    0 <= k < out@.len() ==> is_due(all@, i as int, now, #[trigger] out@[k]),
            decreases all.len() - i,
        {
            let (id, deadline) = all[i];
            if now.nanos >= deadline.nanos {
                let ghost before = out@;
                out.push(id);
                proof {
                    assert(out@[before.len() as int] == id);
                    assert forall|j: int|
                        0 <= j < i + 1 && now.nanos >= (#[trigger] all@[j]).1.nanos implies
                        out@.contains(all@[j].0) by {
                        if j < i {
                            let k = choose|k: int| 0 <= k < before.len() && before[k] == all@[j].0;
                            assert(out@[k] == all@[j].0);
                        }
                    }
                    assert forall|k: int| 0 <= k < out@.len() implies is_due(
                        all@,
                        i + 1,
                        now,
                        #[trigger] out@[k],
                    ) by {
                        if k < before.len() {
                            assert(out@[k] == before[k]);
                        } else {
                            assert(all@[i as int].0 == out@[k]);
                        }
                    }
                }
            }
            i += 1;
        }
        proof {
            assert forall|id: i64| #[trigger] out@.contains(id) <==> due(self@, now).contains(
                id,
            ) by {
                if out@.contains(id) {
                    let k = choose|k: int| 0 <= k < out@.len() && out@[k] == id;
                    assert(out@[k] == id);
                }
                if due(self@, now).contains(id) {
                    assert(self@.contains_key(id));
                }
            }
            lemma_ascending(out@, due(self@, now));
        }
        out
    }

    /// The first instant at which a request's time is up.
    pub fn earliest(&self) -> (r: Option<Instant>)
        ensures
            r == earliest(self@),
            is_earliest(self@, r),
    {
        let all = self.entries();
        if all.len() == 0 {
            proof {
                lemma_earliest(self@, None);
            }
            return None;
        }
        let mut t: Instant = all[0].1;
        let mut i: usize = 1;
        assert(all@[0].1 == t);
        while i < all.len()
            invariant
                1 <= i <= all.len(),
                exists|j: int| 0 <= j < i && (#[trigger] all@[j]).1 == t,
                forall|j: int| 0 <= j < i ==> t.nanos <= (#[trigger] all@[j]).1.nanos,
            decreases all.len() - i,
        {
            if all[i].1.nanos < t.nanos {
                t = all[i].1;
            }
            assert(all@[i as int].1.nanos >= t.nanos);
            i += 1;
        }
        proof {
            lemma_earliest(self@, Some(t));
        }
        Some(t)
    }
}

} // verus!
