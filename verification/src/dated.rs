//! Records in the order of their times.

use vstd::prelude::*;

use crate::log::{views, Duplicate};
use crate::time::{earlier, Timestamp};

verus! {

/// Records that have a time.
pub trait Dated: Duplicate {
    /// The time of a record.
    spec fn time(v: Self::V) -> Timestamp;

    /// The time of this record.
    fn time_of(&self) -> (t: Timestamp)
        ensures
            t == Self::time(self@),
    ;
}

/// Whether no record comes before an earlier one.
pub open spec fn is_chronological<T: Dated>(s: Seq<T::V>) -> bool {
    forall|a: int, b: int|
        0 <= a < b < s.len() ==> !earlier(T::time(#[trigger] s[b]), T::time(#[trigger] s[a]))
}

/// The records of the given time.
pub open spec fn at_time<T: Dated>(s: Seq<T::V>, t: Timestamp) -> Seq<T::V> {
    s.filter(|v: T::V| T::time(v) == t)
}

/// Whether `r` holds the records of `s` in chronological order, those of the same time in the
/// order that they have in `s`.
pub open spec fn is_in_time_order<T: Dated>(r: Seq<T::V>, s: Seq<T::V>) -> bool {
    &&& is_chronological::<T>(r)
    &&& forall|t: Timestamp| #[trigger] at_time::<T>(r, t) == at_time::<T>(s, t)
}

/// A record behind the others.
proof fn lemma_at_time_push<T: Dated>(s: Seq<T::V>, x: T::V, t: Timestamp)
    ensures
        at_time::<T>(s.push(x), t) == if T::time(x) == t {
            at_time::<T>(s, t).push(x)
        } else {
            at_time::<T>(s, t)
        },
{
    reveal(Seq::filter);
    assert(s.push(x).drop_last() =~= s);
}

/// There are no records of a time that none has.
proof fn lemma_at_time_none<T: Dated>(s: Seq<T::V>, t: Timestamp)
    requires
        forall|i: int| 0 <= i < s.len() ==> T::time(#[trigger] s[i]) != t,
    ensures
        at_time::<T>(s, t) == Seq::<T::V>::empty(),
    decreases s.len(),
{
    reveal(Seq::filter);
    if s.len() > 0 {
        assert(T::time(s[s.len() - 1]) != t);
        lemma_at_time_none::<T>(s.drop_last(), t);
    }
}

/// A record before all later ones and behind all others comes last of its time.
proof fn lemma_at_time_insert<T: Dated>(s: Seq<T::V>, at: int, x: T::V, t: Timestamp)
    requires
        0 <= at <= s.len(),
        forall|j: int| at <= j < s.len() ==> earlier(T::time(x), T::time(#[trigger] s[j])),
    ensures
        at_time::<T>(s.insert(at, x), t) == if T::time(x) == t {
            at_time::<T>(s, t).push(x)
        } else {
            at_time::<T>(s, t)
        },
{
    let pred = |v: T::V| T::time(v) == t;
    let front = s.take(at);
    let back = s.skip(at);
    assert(s.insert(at, x) =~= front.push(x) + back);
    assert(s =~= front + back);
    Seq::filter_distributes_over_add(front.push(x), back, pred);
    Seq::filter_distributes_over_add(front, back, pred);
    lemma_at_time_push::<T>(front, x, t);
    if T::time(x) == t {
        assert forall|i: int| 0 <= i < back.len() implies T::time(#[trigger] back[i]) != t by {
            assert(back[i] == s[at + i]);
        }
        lemma_at_time_none::<T>(back, t);
        assert(at_time::<T>(s.insert(at, x), t) =~= at_time::<T>(s, t).push(x));
    }
}

/// A record before all later ones and behind all others keeps the order.
proof fn lemma_insert_chronological<T: Dated>(s: Seq<T::V>, at: int, x: T::V)
    requires
        is_chronological::<T>(s),
        0 <= at <= s.len(),
        at > 0 ==> !earlier(T::time(x), T::time(s[at - 1])),
        forall|j: int| at <= j < s.len() ==> earlier(T::time(x), T::time(#[trigger] s[j])),
    ensures
        is_chronological::<T>(s.insert(at, x)),
{
    let r = s.insert(at, x);
    assert forall|a: int, b: int| 0 <= a < b < r.len() implies !earlier(
        T::time(#[trigger] r[b]),
        T::time(#[trigger] r[a]),
    ) by {
        let c = if a < at {
            a
        } else {
            a - 1
        };
        let d = if b < at {
            b
        } else {
            b - 1
        };
        if a == at {
            assert(r[b] == s[d]);
        } else if b == at {
            assert(r[a] == s[c]);
            if a < at - 1 {
                assert(!earlier(T::time(s[at - 1]), T::time(s[a])));
            }
        } else {
            assert(r[a] == s[c] && r[b] == s[d]);
        }
    }
}

/// Brings records into chronological order. Those of the same time stay in their order.
pub fn sort_by_time<T: Dated>(v: Vec<T>) -> (r: Vec<T>)
    ensures
        is_in_time_order::<T>(views(r@), views(v@)),
{
    let ghost s = views(v@);
    let mut r: Vec<T> = Vec::new();
    let mut n: usize = 0;
    assert(views(r@) =~= s.take(0));
    while n < v.len()
        invariant
            n <= v@.len(),
            s == views(v@),
            is_in_time_order::<T>(views(r@), s.take(n as int)),
        decreases v@.len() - n,
    {
        let x = v[n].duplicate();
        let ghost before = views(r@);
        let mut at: usize = r.len();
        while at > 0 && x.time_of().is_before(&r[at - 1].time_of())
            invariant
                at <= r@.len(),
                before == views(r@),
                forall|j: int|
                    at <= j < before.len() ==> earlier(T::time(x@), T::time(#[trigger] before[j])),
            decreases at,
        {
            assert(before[at - 1] == r@[at - 1]@);
            at -= 1;
        }
        proof {
            if at > 0 {
                assert(before[at - 1] == r@[at - 1]@);
            }
            lemma_insert_chronological::<T>(before, at as int, x@);
            assert(s.take(n + 1) =~= s.take(n as int).push(x@));
            assert forall|t: Timestamp| #[trigger]
                at_time::<T>(before.insert(at as int, x@), t) == at_time::<T>(s.take(n + 1), t) by {
                lemma_at_time_insert::<T>(before, at as int, x@, t);
                lemma_at_time_push::<T>(s.take(n as int), x@, t);
                assert(at_time::<T>(before, t) == at_time::<T>(s.take(n as int), t));
            }
        }
        let ghost seen = x@;
        r.insert(at, x);
        assert(views(r@) =~= before.insert(at as int, seen));
        n += 1;
    }
    assert(s.take(n as int) =~= s);
    r
}

/// A record that is not earlier than the others comes last.
pub proof fn lemma_append_in_time<T: Dated>(r: Seq<T::V>, s: Seq<T::V>, x: T::V)
    requires
        is_in_time_order::<T>(r, s),
        forall|i: int| 0 <= i < r.len() ==> !earlier(T::time(x), T::time(#[trigger] r[i])),
    ensures
        is_in_time_order::<T>(r.push(x), s.push(x)),
{
    assert forall|t: Timestamp| #[trigger] at_time::<T>(r.push(x), t) == at_time::<T>(
        s.push(x),
        t,
    ) by {
        lemma_at_time_push::<T>(r, x, t);
        lemma_at_time_push::<T>(s, x, t);
        assert(at_time::<T>(r, t) == at_time::<T>(s, t));
    }
    let q = r.push(x);
    assert forall|a: int, b: int| 0 <= a < b < q.len() implies !earlier(
        T::time(#[trigger] q[b]),
        T::time(#[trigger] q[a]),
    ) by {
        assert(q[a] == r[a]);
        if b < r.len() {
            assert(q[b] == r[b]);
        }
    }
}

/// The records of a time hold a record of it.
proof fn lemma_at_time_last<T: Dated>(s: Seq<T::V>)
    requires
        s.len() > 0,
    ensures
        at_time::<T>(s, T::time(s.last())).len() > 0,
        at_time::<T>(s, T::time(s.last())).last() == s.last(),
{
    reveal(Seq::filter);
}

/// A record is among those of its time, and those of a time are among all.
proof fn lemma_at_time_has<T: Dated>(s: Seq<T::V>, t: Timestamp)
    requires
        at_time::<T>(s, t).len() > 0,
    ensures
        exists|i: int| 0 <= i < s.len() && T::time(#[trigger] s[i]) == t,
{
    if forall|i: int| 0 <= i < s.len() ==> T::time(#[trigger] s[i]) != t {
        lemma_at_time_none::<T>(s, t);
    }
}

/// There is one chronological order.
pub proof fn law_time_order_unique<T: Dated>(r: Seq<T::V>, q: Seq<T::V>, s: Seq<T::V>)
    requires
        is_in_time_order::<T>(r, s),
        is_in_time_order::<T>(q, s),
    ensures
        r == q,
    decreases r.len(),
{
    if r.len() == 0 {
        if q.len() > 0 {
            let t = T::time(q.last());
            lemma_at_time_last::<T>(q);
            assert(at_time::<T>(q, t) == at_time::<T>(s, t));
            assert(at_time::<T>(r, t) == at_time::<T>(s, t));
            lemma_at_time_has::<T>(r, t);
        }
        assert(r =~= q);
    } else {
        let t = T::time(r.last());
        lemma_at_time_last::<T>(r);
        assert(at_time::<T>(q, t) == at_time::<T>(s, t));
        assert(at_time::<T>(r, t) == at_time::<T>(s, t));
        lemma_at_time_has::<T>(q, t);
        let u = T::time(q.last());
        lemma_at_time_last::<T>(q);
        assert(at_time::<T>(q, u) == at_time::<T>(s, u));
        assert(at_time::<T>(r, u) == at_time::<T>(s, u));
        lemma_at_time_has::<T>(r, u);
        let i = choose|i: int| 0 <= i < r.len() && T::time(#[trigger] r[i]) == u;
        let j = choose|j: int| 0 <= j < q.len() && T::time(#[trigger] q[j]) == t;
        crate::time::law_earlier_is_total_order(t, u, u);
        assert(!earlier(t, u)) by {
            if i < r.len() - 1 {
                assert(!earlier(T::time(r[r.len() - 1]), T::time(r[i])));
            }
        }
        assert(!earlier(u, t)) by {
            if j < q.len() - 1 {
                assert(!earlier(T::time(q[q.len() - 1]), T::time(q[j])));
            }
        }
        assert(t == u);
        assert(r.last() == q.last());
        let x = r.last();
        let r1 = r.drop_last();
        let q1 = q.drop_last();
        assert(r1.push(x) =~= r);
        assert(q1.push(x) =~= q);
        assert forall|w: Timestamp| #[trigger] at_time::<T>(r1, w) == at_time::<T>(q1, w) by {
            lemma_at_time_push::<T>(r1, x, w);
            lemma_at_time_push::<T>(q1, x, w);
            assert(at_time::<T>(q, w) == at_time::<T>(s, w));
            assert(at_time::<T>(r, w) == at_time::<T>(s, w));
            if T::time(x) == w {
                assert(at_time::<T>(r1, w) =~= at_time::<T>(r, w).drop_last());
                assert(at_time::<T>(q1, w) =~= at_time::<T>(q, w).drop_last());
            }
        }
        assert(is_in_time_order::<T>(r1, q1));
        assert(is_in_time_order::<T>(q1, q1));
        law_time_order_unique::<T>(r1, q1, q1);
    }
}

/// Records that are in chronological order stay as they are.
pub proof fn law_chronological_stays<T: Dated>(r: Seq<T::V>, s: Seq<T::V>)
    requires
        is_chronological::<T>(s),
        is_in_time_order::<T>(r, s),
    ensures
        r == s,
{
    law_time_order_unique::<T>(r, s, s);
}

/// The records of a time are all records that have it.
proof fn lemma_at_time_contains<T: Dated>(s: Seq<T::V>, t: Timestamp, x: T::V)
    ensures
        at_time::<T>(s, t).contains(x) <==> s.contains(x) && T::time(x) == t,
    decreases s.len(),
{
    if s.len() == 0 {
        lemma_at_time_none::<T>(s, t);
    } else {
        let front = s.drop_last();
        let y = s.last();
        assert(front.push(y) =~= s);
        lemma_at_time_contains::<T>(front, t, x);
        lemma_at_time_push::<T>(front, y, t);
        lemma_push_contains(front, y, x);
        lemma_push_contains(at_time::<T>(front, t), y, x);
    }
}

/// What a list with one more element holds.
proof fn lemma_push_contains<A>(s: Seq<A>, y: A, x: A)
    ensures
        s.push(y).contains(x) <==> s.contains(x) || x == y,
{
    if s.contains(x) {
        let i = choose|i: int| 0 <= i < s.len() && s[i] == x;
        assert(s.push(y)[i] == x);
    }
    if x == y {
        assert(s.push(y)[s.len() as int] == x);
    }
    if s.push(y).contains(x) && x != y {
        let i = choose|i: int| 0 <= i < s.push(y).len() && s.push(y)[i] == x;
        assert(s[i] == x);
    }
}

/// Records keep their number when they are put into chronological order, and none is lost or
/// added.
pub proof fn law_same_records<T: Dated>(r: Seq<T::V>, s: Seq<T::V>, x: T::V)
    requires
        is_in_time_order::<T>(r, s),
    ensures
        r.contains(x) <==> s.contains(x),
        r.len() == s.len(),
{
    let t = T::time(x);
    assert(at_time::<T>(r, t) == at_time::<T>(s, t));
    lemma_at_time_contains::<T>(r, t, x);
    lemma_at_time_contains::<T>(s, t, x);
    lemma_same_len::<T>(r, s);
}

/// Lists with the same records of every time are equally long.
proof fn lemma_same_len<T: Dated>(r: Seq<T::V>, s: Seq<T::V>)
    requires
        forall|t: Timestamp| #[trigger] at_time::<T>(r, t) == at_time::<T>(s, t),
    ensures
        r.len() == s.len(),
    decreases r.len(),
{
    if r.len() == 0 {
        if s.len() > 0 {
            let t = T::time(s.last());
            lemma_at_time_last::<T>(s);
            assert(at_time::<T>(r, t) == at_time::<T>(s, t));
            lemma_at_time_has::<T>(r, t);
        }
    } else {
        let x = r.last();
        let t = T::time(x);
        let r1 = r.drop_last();
        assert(r1.push(x) =~= r);
        lemma_at_time_push::<T>(r1, x, t);
        assert(at_time::<T>(r, t) == at_time::<T>(s, t));
        lemma_at_time_has::<T>(s, t);
        let k = lemma_last_of_time::<T>(s, t);
        let s1 = s.remove(k);
        assert forall|u: Timestamp| #[trigger] at_time::<T>(r1, u) == at_time::<T>(s1, u) by {
            lemma_at_time_push::<T>(r1, x, u);
            assert(at_time::<T>(r, u) == at_time::<T>(s, u));
            lemma_remove_last_of_time::<T>(s, k, u);
            if u == t {
                assert(at_time::<T>(r1, u) =~= at_time::<T>(r, u).drop_last());
            }
        }
        lemma_same_len::<T>(r1, s1);
    }
}

/// The place of the last record of a time.
proof fn lemma_last_of_time<T: Dated>(s: Seq<T::V>, t: Timestamp) -> (k: int)
    requires
        exists|i: int| 0 <= i < s.len() && T::time(#[trigger] s[i]) == t,
    ensures
        0 <= k < s.len(),
        T::time(s[k]) == t,
        forall|j: int| k < j < s.len() ==> T::time(#[trigger] s[j]) != t,
    decreases s.len(),
{
    if T::time(s.last()) == t {
        s.len() - 1
    } else {
        let i = choose|i: int| 0 <= i < s.len() && T::time(#[trigger] s[i]) == t;
        let front = s.drop_last();
        assert(T::time(front[i]) == t);
        let k = lemma_last_of_time::<T>(front, t);
        assert forall|j: int| k < j < s.len() implies T::time(#[trigger] s[j]) != t by {
            if j < front.len() {
                assert(front[j] == s[j]);
            }
        }
        k
    }
}

/// What is left of a time without its last record.
proof fn lemma_remove_last_of_time<T: Dated>(s: Seq<T::V>, k: int, u: Timestamp)
    requires
        0 <= k < s.len(),
        forall|j: int| k < j < s.len() ==> T::time(#[trigger] s[j]) != T::time(s[k]),
    ensures
        at_time::<T>(s.remove(k), u) == if u == T::time(s[k]) {
            at_time::<T>(s, u).drop_last()
        } else {
            at_time::<T>(s, u)
        },
{
    let pred = |v: T::V| T::time(v) == u;
    let front = s.take(k);
    let back = s.skip(k + 1);
    let x = s[k];
    assert(s.remove(k) =~= front + back);
    assert(s =~= front.push(x) + back);
    Seq::filter_distributes_over_add(front, back, pred);
    Seq::filter_distributes_over_add(front.push(x), back, pred);
    lemma_at_time_push::<T>(front, x, u);
    if u == T::time(x) {
        assert forall|i: int| 0 <= i < back.len() implies T::time(#[trigger] back[i]) != u by {
            assert(back[i] == s[k + 1 + i]);
        }
        lemma_at_time_none::<T>(back, u);
        assert(at_time::<T>(s.remove(k), u) =~= at_time::<T>(s, u).drop_last());
    }
}

} // verus!
