//! Append-only logs of records, read back so that the latest version of each record wins.

use vstd::prelude::*;

use crate::lists::{in_order, lemma_filter, lemma_filter_all};

verus! {

/// What can be copied.
pub trait Duplicate: View + Sized {
    /// A copy of the value.
    fn duplicate(&self) -> (r: Self)
        ensures
            r@ == self@,
    ;
}

/// A record of a log. Versions of the same record share a key.
pub trait Entry: Duplicate {
    /// What tells records apart.
    type Key;

    /// The key of a record.
    spec fn key(v: Self::V) -> Self::Key;

    /// Whether a record comes before another when a log is read back.
    spec fn older(a: Self::V, b: Self::V) -> bool;

    /// `older` is irreflexive and transitive, and so is "neither is older".
    proof fn older_is_order(a: Self::V, b: Self::V, c: Self::V)
        ensures
            !Self::older(a, a),
            Self::older(a, b) && Self::older(b, c) ==> Self::older(a, c),
            !Self::older(a, b) && !Self::older(b, c) ==> !Self::older(a, c),
    ;

    /// Whether two records have the same key.
    fn same_key(&self, other: &Self) -> (r: bool)
        ensures
            r == (Self::key(self@) == Self::key(other@)),
    ;

    /// Whether this record comes before the other when a log is read back.
    fn is_older(&self, other: &Self) -> (r: bool)
        ensures
            r == Self::older(self@, other@),
    ;
}

/// What the records hold, one by one.
pub open spec fn views<T: View>(s: Seq<T>) -> Seq<T::V> {
    Seq::new(s.len(), |i: int| s[i]@)
}

/// The latest version in the log of the record with key `k`.
pub open spec fn latest<T: Entry>(log: Seq<T::V>, k: T::Key) -> Option<T::V>
    decreases log.len(),
{
    if log.len() == 0 {
        None
    } else if T::key(log.last()) == k {
        Some(log.last())
    } else {
        latest::<T>(log.drop_last(), k)
    }
}

/// The place in the log where the record with key `k` was first written, or the length of
/// the log where it was not.
pub open spec fn first_place<T: Entry>(log: Seq<T::V>, k: T::Key) -> nat
    decreases log.len(),
{
    if log.len() == 0 {
        0
    } else {
        let f = first_place::<T>(log.drop_last(), k);
        if f < log.len() - 1 || T::key(log.last()) == k {
            f
        } else {
            log.len()
        }
    }
}

/// Whether `a` comes before `b` when the log is read back: older records come first, and
/// among records of the same age those that were first written earlier.
pub open spec fn comes_before<T: Entry>(log: Seq<T::V>, a: T::V, b: T::V) -> bool {
    T::older(a, b) || (!T::older(b, a) && first_place::<T>(log, T::key(a)) < first_place::<T>(
        log,
        T::key(b),
    ))
}

/// Whether `r` is what the log holds: the latest version of every record that was written,
/// in the order of age and first writing.
pub open spec fn is_loaded<T: Entry>(r: Seq<T::V>, log: Seq<T::V>) -> bool {
    &&& forall|a: int|
        0 <= a < r.len() ==> latest::<T>(log, T::key(#[trigger] r[a])) == Some(r[a])
    &&& forall|k: T::Key| #[trigger]
        latest::<T>(log, k) is Some ==> exists|a: int| 0 <= a < r.len() && T::key(r[a]) == k
    &&& forall|a: int, b: int|
        0 <= a < b < r.len() ==> comes_before::<T>(log, #[trigger] r[a], #[trigger] r[b])
}

/// What the log holds when it is read back.
pub open spec fn loaded<T: Entry>(log: Seq<T::V>) -> Seq<T::V> {
    choose|r: Seq<T::V>| is_loaded::<T>(r, log)
}

/// A record has a latest version exactly if it was written at some place.
pub proof fn lemma_latest<T: Entry>(log: Seq<T::V>, k: T::Key)
    ensures
        latest::<T>(log, k) is Some <==> first_place::<T>(log, k) < log.len(),
        first_place::<T>(log, k) <= log.len(),
        latest::<T>(log, k) is Some ==> T::key(latest::<T>(log, k)->0) == k,
        latest::<T>(log, k) is Some ==> T::key(log[first_place::<T>(log, k) as int]) == k,
        forall|i: int| 0 <= i < log.len() && T::key(log[i]) == k ==> first_place::<T>(log, k) <= i,
    decreases log.len(),
{
    if log.len() > 0 {
        lemma_latest::<T>(log.drop_last(), k);
        assert forall|i: int| 0 <= i < log.len() && T::key(log[i]) == k implies first_place::<T>(
            log,
            k,
        ) <= i by {
            if i < log.len() - 1 {
                assert(log.drop_last()[i] == log[i]);
            }
        }
        if latest::<T>(log, k) is Some && first_place::<T>(log, k) < log.len() - 1 {
            let f = first_place::<T>(log, k) as int;
            assert(log.drop_last()[f] == log[f]);
        }
    }
}

/// The effect of one more record on what is latest and what was written first.
proof fn lemma_push<T: Entry>(log: Seq<T::V>, e: T::V, k: T::Key)
    ensures
        latest::<T>(log.push(e), k) == if T::key(e) == k {
            Some(e)
        } else {
            latest::<T>(log, k)
        },
        first_place::<T>(log, k) < log.len() ==> first_place::<T>(log.push(e), k)
            == first_place::<T>(log, k),
        first_place::<T>(log, k) >= log.len() && T::key(e) == k ==> first_place::<T>(
            log.push(e),
            k,
        ) == log.len(),
{
    lemma_latest::<T>(log, k);
    assert(log.push(e).drop_last() =~= log);
}

/// Whether `r` holds the latest version of every record in the log, in the order of first
/// writing.
spec fn is_gathered<T: Entry>(r: Seq<T::V>, log: Seq<T::V>) -> bool {
    &&& forall|a: int|
        0 <= a < r.len() ==> latest::<T>(log, T::key(#[trigger] r[a])) == Some(r[a])
    &&& forall|k: T::Key| #[trigger]
        latest::<T>(log, k) is Some ==> exists|a: int| 0 <= a < r.len() && T::key(r[a]) == k
    &&& forall|a: int, b: int|
        0 <= a < b < r.len() ==> first_place::<T>(log, T::key(#[trigger] r[a])) < first_place::<T>(
            log,
            T::key(#[trigger] r[b]),
        )
}

/// A new version takes the place of the one before it.
proof fn lemma_gather_replace<T: Entry>(r: Seq<T::V>, log: Seq<T::V>, e: T::V, at: int)
    requires
        is_gathered::<T>(r, log),
        0 <= at < r.len(),
        T::key(r[at]) == T::key(e),
    ensures
        is_gathered::<T>(r.update(at, e), log.push(e)),
{
    let r2 = r.update(at, e);
    let log2 = log.push(e);
    assert forall|a: int| 0 <= a < r2.len() implies latest::<T>(log2, T::key(#[trigger] r2[a]))
        == Some(r2[a]) && first_place::<T>(log2, T::key(r2[a])) == first_place::<T>(
        log,
        T::key(r[a]),
    ) by {
        lemma_push::<T>(log, e, T::key(r2[a]));
        lemma_latest::<T>(log, T::key(r[a]));
        assert(latest::<T>(log, T::key(r[a])) == Some(r[a]));
        if a != at && T::key(r[a]) == T::key(e) {
            if a < at {
                assert(first_place::<T>(log, T::key(r[a])) < first_place::<T>(log, T::key(r[at])));
            } else {
                assert(first_place::<T>(log, T::key(r[at])) < first_place::<T>(log, T::key(r[a])));
            }
        }
    }
    assert forall|k: T::Key| #[trigger] latest::<T>(log2, k) is Some implies exists|a: int|
        0 <= a < r2.len() && T::key(r2[a]) == k by {
        lemma_push::<T>(log, e, k);
        if T::key(e) == k {
            assert(T::key(r2[at]) == k);
        } else {
            let a = choose|a: int| 0 <= a < r.len() && T::key(r[a]) == k;
            assert(T::key(r2[a]) == k);
        }
    }
    assert forall|a: int, b: int| 0 <= a < b < r2.len() implies first_place::<T>(
        log2,
        T::key(#[trigger] r2[a]),
    ) < first_place::<T>(log2, T::key(#[trigger] r2[b])) by {
        assert(first_place::<T>(log, T::key(r[a])) < first_place::<T>(log, T::key(r[b])));
    }
}

/// A record that was not written before comes last.
proof fn lemma_gather_push<T: Entry>(r: Seq<T::V>, log: Seq<T::V>, e: T::V)
    requires
        is_gathered::<T>(r, log),
        forall|a: int| 0 <= a < r.len() ==> T::key(#[trigger] r[a]) != T::key(e),
    ensures
        is_gathered::<T>(r.push(e), log.push(e)),
{
    let r2 = r.push(e);
    let log2 = log.push(e);
    lemma_push::<T>(log, e, T::key(e));
    lemma_latest::<T>(log, T::key(e));
    assert(latest::<T>(log, T::key(e)) is None);
    assert forall|a: int| 0 <= a < r.len() implies latest::<T>(log2, T::key(#[trigger] r2[a]))
        == Some(r2[a]) && first_place::<T>(log2, T::key(r2[a])) == first_place::<T>(
        log,
        T::key(r[a]),
    ) && first_place::<T>(log, T::key(r[a])) < log.len() by {
        lemma_push::<T>(log, e, T::key(r2[a]));
        lemma_latest::<T>(log, T::key(r[a]));
        assert(latest::<T>(log, T::key(r[a])) == Some(r[a]));
    }
    assert forall|k: T::Key| #[trigger] latest::<T>(log2, k) is Some implies exists|a: int|
        0 <= a < r2.len() && T::key(r2[a]) == k by {
        lemma_push::<T>(log, e, k);
        if T::key(e) == k {
            assert(T::key(r2[r.len() as int]) == k);
        } else {
            let a = choose|a: int| 0 <= a < r.len() && T::key(r[a]) == k;
            assert(T::key(r2[a]) == k);
        }
    }
    assert forall|a: int, b: int| 0 <= a < b < r2.len() implies first_place::<T>(
        log2,
        T::key(#[trigger] r2[a]),
    ) < first_place::<T>(log2, T::key(#[trigger] r2[b])) by {
        if b < r.len() {
            assert(first_place::<T>(log, T::key(r[a])) < first_place::<T>(log, T::key(r[b])));
        }
    }
}

/// What a log holds is determined by the log.
pub proof fn law_loaded_unique<T: Entry>(r: Seq<T::V>, s: Seq<T::V>, log: Seq<T::V>)
    requires
        is_loaded::<T>(r, log),
        is_loaded::<T>(s, log),
    ensures
        r == s,
{
    lemma_loaded_prefix::<T>(r, s, log, r.len() as int);
    lemma_loaded_prefix::<T>(s, r, log, s.len() as int);
    assert(r =~= s);
}

/// Two readings of a log agree on their first `n` records.
proof fn lemma_loaded_prefix<T: Entry>(r: Seq<T::V>, s: Seq<T::V>, log: Seq<T::V>, n: int)
    requires
        is_loaded::<T>(r, log),
        is_loaded::<T>(s, log),
        0 <= n <= r.len(),
    ensures
        n <= s.len(),
        forall|i: int| 0 <= i < n ==> #[trigger] r[i] == s[i],
    decreases n,
{
    if n > 0 {
        let i = n - 1;
        lemma_loaded_prefix::<T>(r, s, log, i);
        let j = lemma_counterpart::<T>(r, s, log, i);
        if j < i {
            assert(r[j] == s[j]);
            lemma_before_asymmetric::<T>(log, r[j], r[i]);
            assert(comes_before::<T>(log, r[j], r[i]));
        }
        let k = lemma_counterpart::<T>(s, r, log, i);
        if k < i {
            assert(r[k] == s[k]);
            lemma_before_asymmetric::<T>(log, s[k], s[i]);
            assert(comes_before::<T>(log, s[k], s[i]));
        }
        if j > i {
            assert(comes_before::<T>(log, s[i], s[j]));
            lemma_before_asymmetric::<T>(log, s[i], s[j]);
            if k > i {
                assert(comes_before::<T>(log, r[i], r[k]));
            }
        }
    }
}

/// Every record of one reading is in the other.
proof fn lemma_counterpart<T: Entry>(r: Seq<T::V>, s: Seq<T::V>, log: Seq<T::V>, i: int) -> (j: int)
    requires
        is_loaded::<T>(r, log),
        is_loaded::<T>(s, log),
        0 <= i < r.len(),
    ensures
        0 <= j < s.len(),
        s[j] == r[i],
{
    assert(latest::<T>(log, T::key(r[i])) == Some(r[i]));
    let j = choose|j: int| 0 <= j < s.len() && T::key(s[j]) == T::key(r[i]);
    assert(latest::<T>(log, T::key(s[j])) == Some(s[j]));
    j
}

/// Of two records at most one comes before the other.
proof fn lemma_before_asymmetric<T: Entry>(log: Seq<T::V>, a: T::V, b: T::V)
    ensures
        !(comes_before::<T>(log, a, b) && comes_before::<T>(log, b, a)),
        !comes_before::<T>(log, a, a),
{
    T::older_is_order(a, b, a);
    T::older_is_order(b, a, b);
}

/// The latest version of every record, in the order of first writing.
fn gather<T: Entry>(log: &Vec<T>) -> (r: Vec<T>)
    ensures
        is_gathered::<T>(views(r@), views(log@)),
{
    let mut r: Vec<T> = Vec::new();
    let mut i: usize = 0;
    while i < log.len()
        invariant
            i <= log@.len(),
            is_gathered::<T>(views(r@), views(log@).take(i as int)),
        decreases log@.len() - i,
    {
        let e = log[i].duplicate();
        let ghost before = views(r@);
        let ghost part = views(log@).take(i as int);
        let mut a: usize = 0;
        while a < r.len() && !r[a].same_key(&e)
            invariant
                a <= r@.len(),
                forall|b: int| 0 <= b < a ==> T::key(r@[b]@) != T::key(e@),
            decreases r@.len() - a,
        {
            a += 1;
        }
        let found: bool = a < r.len();
        if found {
            proof {
                lemma_gather_replace::<T>(before, part, e@, a as int);
            }
            r.set(a, e);
            assert(views(r@) =~= before.update(a as int, e@));
        } else {
            proof {
                lemma_gather_push::<T>(before, part, e@);
            }
            r.push(e);
            assert(views(r@) =~= before.push(e@));
        }
        i += 1;
        assert(views(log@).take(i as int) =~= part.push(e@));
    }
    assert(views(log@).take(i as int) =~= views(log@));
    r
}

/// Whether `x` is among the first `n` of `s`.
#[verifier::opaque]
spec fn among<A>(x: A, s: Seq<A>, n: int) -> bool {
    exists|i: int| 0 <= i < n && s[i] == x
}

/// Whether `r` holds the first `n` records of `p`, sorted.
spec fn is_sorted_part<T: Entry>(r: Seq<T::V>, p: Seq<T::V>, n: int, log: Seq<T::V>) -> bool {
    &&& forall|a: int| 0 <= a < r.len() ==> among(#[trigger] r[a], p, n)
    &&& forall|b: int| 0 <= b < n ==> among(#[trigger] p[b], r, r.len() as int)
    &&& forall|a: int, b: int|
        0 <= a < b < r.len() ==> comes_before::<T>(log, #[trigger] r[a], #[trigger] r[b])
}

/// What comes before a record that `x` is not older than comes before `x`, if it was first
/// written before it.
proof fn lemma_before_newer<T: Entry>(log: Seq<T::V>, a: T::V, b: T::V, x: T::V)
    requires
        a == b || comes_before::<T>(log, a, b),
        !T::older(x, b),
        first_place::<T>(log, T::key(a)) < first_place::<T>(log, T::key(x)),
    ensures
        comes_before::<T>(log, a, x),
{
    T::older_is_order(a, b, a);
    T::older_is_order(x, b, a);
}

/// One more record in its place keeps the order.
proof fn lemma_insert_sorted<T: Entry>(
    r: Seq<T::V>,
    p: Seq<T::V>,
    n: int,
    log: Seq<T::V>,
    at: int,
)
    requires
        is_gathered::<T>(p, log),
        0 <= n < p.len(),
        is_sorted_part::<T>(r, p, n, log),
        0 <= at <= r.len(),
        at > 0 ==> !T::older(p[n], r[at - 1]),
        forall|j: int| at <= j < r.len() ==> T::older(p[n], #[trigger] r[j]),
    ensures
        is_sorted_part::<T>(r.insert(at, p[n]), p, n + 1, log),
{
    let x = p[n];
    let s = r.insert(at, x);
    assert forall|a: int| 0 <= a < s.len() implies among(#[trigger] s[a], p, n + 1) by {
        reveal(among);
        if a == at {
            assert(p[n] == s[a]);
        } else {
            let c = if a < at {
                a
            } else {
                a - 1
            };
            assert(r[c] == s[a]);
            assert(among(r[c], p, n));
        }
    }
    assert forall|b: int| 0 <= b < n + 1 implies among(#[trigger] p[b], s, s.len() as int) by {
        reveal(among);
        if b == n {
            assert(s[at] == p[b]);
        } else {
            assert(among(p[b], r, r.len() as int));
            let a = choose|a: int| 0 <= a < r.len() && r[a] == p[b];
            let c = if a < at {
                a
            } else {
                a + 1
            };
            assert(s[c] == p[b]);
        }
    }
    assert forall|a: int, b: int| 0 <= a < b < s.len() implies comes_before::<T>(
        log,
        #[trigger] s[a],
        #[trigger] s[b],
    ) by {
        if b == at {
            assert(s[a] == r[a]);
            assert(first_place::<T>(log, T::key(r[a])) < first_place::<T>(log, T::key(x))) by {
                reveal(among);
                assert(among(r[a], p, n));
                let c = choose|c: int| 0 <= c < n && p[c] == r[a];
                assert(first_place::<T>(log, T::key(p[c])) < first_place::<T>(log, T::key(p[n])));
            }
            lemma_before_newer::<T>(log, r[a], r[at - 1], x);
        } else if a == at {
            assert(s[b] == r[b - 1]);
        } else {
            let c = if a < at {
                a
            } else {
                a - 1
            };
            let d = if b < at {
                b
            } else {
                b - 1
            };
            assert(s[a] == r[c] && s[b] == r[d]);
        }
    }
}

/// The gathered records, once sorted, are what the log holds.
proof fn lemma_sorted_is_loaded<T: Entry>(s: Seq<T::V>, all: Seq<T::V>, log: Seq<T::V>)
    requires
        is_gathered::<T>(all, log),
        is_sorted_part::<T>(s, all, all.len() as int, log),
    ensures
        is_loaded::<T>(s, log),
{
    reveal(among);
    assert forall|a: int| 0 <= a < s.len() implies latest::<T>(log, T::key(#[trigger] s[a]))
        == Some(s[a]) by {
        assert(among(s[a], all, all.len() as int));
        let b = choose|b: int| 0 <= b < all.len() && all[b] == s[a];
        assert(latest::<T>(log, T::key(all[b])) == Some(all[b]));
    }
    assert forall|k: T::Key| #[trigger] latest::<T>(log, k) is Some implies exists|a: int|
        0 <= a < s.len() && T::key(s[a]) == k by {
        let b = choose|b: int| 0 <= b < all.len() && T::key(all[b]) == k;
        assert(among(all[b], s, s.len() as int));
        let a = choose|a: int| 0 <= a < s.len() && s[a] == all[b];
        assert(T::key(s[a]) == k);
    }
}

/// Reads a log back: the latest version of every record, in the order of age and, among
/// records of the same age, of first writing.
pub fn load<T: Entry>(log: &Vec<T>) -> (r: Vec<T>)
    ensures
        is_loaded::<T>(views(r@), views(log@)),
        views(r@) == loaded::<T>(views(log@)),
{
    let p = gather(log);
    let ghost all = views(p@);
    let ghost whole = views(log@);
    let mut r: Vec<T> = Vec::new();
    let mut n: usize = 0;
    while n < p.len()
        invariant
            n <= p@.len(),
            all == views(p@),
            is_gathered::<T>(all, whole),
            is_sorted_part::<T>(views(r@), all, n as int, whole),
        decreases p@.len() - n,
    {
        let x = p[n].duplicate();
        let ghost before = views(r@);
        let mut at: usize = r.len();
        while at > 0 && x.is_older(&r[at - 1])
            invariant
                at <= r@.len(),
                before == views(r@),
                forall|j: int| at <= j < r@.len() ==> T::older(x@, #[trigger] before[j]),
            decreases at,
        {
            at -= 1;
        }
        proof {
            lemma_insert_sorted::<T>(before, all, n as int, whole, at as int);
        }
        r.insert(at, x);
        assert(views(r@) =~= before.insert(at as int, x@));
        n += 1;
    }
    proof {
        lemma_sorted_is_loaded::<T>(views(r@), all, whole);
        law_loaded_unique::<T>(views(r@), loaded::<T>(whole), whole);
    }
    r
}

/// The records that `f` accepts, in order.
pub(crate) fn keep<T: Duplicate, F: Fn(&T) -> bool>(v: &Vec<T>, f: F, pred: Ghost<spec_fn(T::V) -> bool>) -> (r:
    Vec<T>)
    requires
        forall|x: &T| #[trigger] f.requires((x,)),
        forall|x: &T, b: bool| #[trigger] f.ensures((x,), b) ==> b == (pred@)(x@),
    ensures
        views(r@) == views(v@).filter(pred@),
{
    let mut r: Vec<T> = Vec::new();
    let mut i: usize = 0;
    proof {
        reveal(Seq::filter);
        assert(views(v@).take(0) =~= Seq::empty());
        assert(views(r@) =~= Seq::empty());
    }
    while i < v.len()
        invariant
            i <= v@.len(),
            forall|x: &T| #[trigger] f.requires((x,)),
            forall|x: &T, b: bool| #[trigger] f.ensures((x,), b) ==> b == (pred@)(x@),
            views(r@) == views(v@).take(i as int).filter(pred@),
        decreases v@.len() - i,
    {
        let ghost before = views(r@);
        let accepted: bool = f(&v[i]);
        if accepted {
            r.push(v[i].duplicate());
        }
        i += 1;
        proof {
            reveal(Seq::filter);
            let part = views(v@).take(i as int);
            assert(part.drop_last() =~= views(v@).take(i - 1));
            assert(part.last() == v@[i - 1]@);
            if accepted {
                assert(views(r@) =~= before.push(v@[i - 1]@));
            }
        }
    }
    assert(views(v@).take(i as int) =~= views(v@));
    r
}

/// A copy of a list.
pub fn duplicate_all<T: Duplicate>(v: &Vec<T>) -> (r: Vec<T>)
    ensures
        views(r@) == views(v@),
{
    let mut r: Vec<T> = Vec::new();
    let mut i: usize = 0;
    while i < v.len()
        invariant
            i <= v@.len(),
            r@.len() == i,
            forall|j: int| 0 <= j < i ==> (#[trigger] r@[j])@ == v@[j]@,
        decreases v@.len() - i,
    {
        r.push(v[i].duplicate());
        i += 1;
    }
    assert(views(r@) =~= views(v@));
    r
}

/// The latest version of a record is the one that was written last, and writing one record
/// leaves all others as they were.
pub proof fn law_last_write_wins<T: Entry>(log: Seq<T::V>, e: T::V, k: T::Key)
    ensures
        latest::<T>(log.push(e), T::key(e)) == Some(e),
        k != T::key(e) ==> latest::<T>(log.push(e), k) == latest::<T>(log, k),
{
    lemma_push::<T>(log, e, T::key(e));
    lemma_push::<T>(log, e, k);
}

/// What a log holds always exists and can be told: it has the latest version of every record
/// and nothing else, and no key twice.
pub proof fn law_loaded<T: Entry>(log: Seq<T::V>)
    ensures
        is_loaded::<T>(loaded::<T>(log), log),
        forall|v: T::V| #[trigger]
            loaded::<T>(log).contains(v) <==> latest::<T>(log, T::key(v)) == Some(v),
        forall|a: int, b: int|
            0 <= a < b < loaded::<T>(log).len() ==> T::key(#[trigger] loaded::<T>(log)[a])
                != T::key(#[trigger] loaded::<T>(log)[b]),
{
    let p = lemma_gathered_exists::<T>(log);
    let r = lemma_sorted_exists::<T>(p, p.len() as int, log);
    lemma_sorted_is_loaded::<T>(r, p, log);
    let s = loaded::<T>(log);
    assert forall|v: T::V| s.contains(v) <==> latest::<T>(log, T::key(v)) == Some(v) by {
        if s.contains(v) {
            let a = choose|a: int| 0 <= a < s.len() && s[a] == v;
            assert(latest::<T>(log, T::key(s[a])) == Some(s[a]));
        }
        if latest::<T>(log, T::key(v)) == Some(v) {
            let a = choose|a: int| 0 <= a < s.len() && T::key(s[a]) == T::key(v);
            assert(latest::<T>(log, T::key(s[a])) == Some(s[a]));
        }
    }
    assert forall|a: int, b: int| 0 <= a < b < s.len() implies T::key(#[trigger] s[a]) != T::key(
        #[trigger] s[b],
    ) by {
        if T::key(s[a]) == T::key(s[b]) {
            assert(latest::<T>(log, T::key(s[a])) == Some(s[a]));
            assert(latest::<T>(log, T::key(s[b])) == Some(s[b]));
            lemma_before_asymmetric::<T>(log, s[a], s[b]);
        }
    }
}

/// The latest versions can be gathered from every log.
proof fn lemma_gathered_exists<T: Entry>(log: Seq<T::V>) -> (r: Seq<T::V>)
    ensures
        is_gathered::<T>(r, log),
    decreases log.len(),
{
    if log.len() == 0 {
        Seq::empty()
    } else {
        let before = log.drop_last();
        let e = log.last();
        let r = lemma_gathered_exists::<T>(before);
        assert(before.push(e) =~= log);
        if exists|a: int| 0 <= a < r.len() && T::key(#[trigger] r[a]) == T::key(e) {
            let a = choose|a: int| 0 <= a < r.len() && T::key(#[trigger] r[a]) == T::key(e);
            lemma_gather_replace::<T>(r, before, e, a);
            r.update(a, e)
        } else {
            lemma_gather_push::<T>(r, before, e);
            r.push(e)
        }
    }
}

/// The place among sorted records before which `x` belongs.
proof fn lemma_place<T: Entry>(r: Seq<T::V>, log: Seq<T::V>, x: T::V, n: int) -> (at: int)
    requires
        0 <= n <= r.len(),
        forall|j: int| n <= j < r.len() ==> T::older(x, #[trigger] r[j]),
    ensures
        0 <= at <= n,
        at > 0 ==> !T::older(x, r[at - 1]),
        forall|j: int| at <= j < r.len() ==> T::older(x, #[trigger] r[j]),
    decreases n,
{
    if n > 0 && T::older(x, r[n - 1]) {
        lemma_place::<T>(r, log, x, n - 1)
    } else {
        n
    }
}

/// The gathered records can be sorted.
proof fn lemma_sorted_exists<T: Entry>(p: Seq<T::V>, n: int, log: Seq<T::V>) -> (r: Seq<T::V>)
    requires
        is_gathered::<T>(p, log),
        0 <= n <= p.len(),
    ensures
        is_sorted_part::<T>(r, p, n, log),
    decreases n,
{
    if n == 0 {
        Seq::empty()
    } else {
        let r = lemma_sorted_exists::<T>(p, n - 1, log);
        let at = lemma_place::<T>(r, log, p[n - 1], r.len() as int);
        lemma_insert_sorted::<T>(r, p, n - 1, log, at);
        r.insert(at, p[n - 1])
    }
}

/// A log that holds a part of what was read from another, in the same order, reads back that
/// part.
pub proof fn law_load_of_filtered<T: Entry>(log: Seq<T::V>, pred: spec_fn(T::V) -> bool)
    ensures
        loaded::<T>(loaded::<T>(log).filter(pred)) == loaded::<T>(log).filter(pred),
{
    law_loaded::<T>(log);
    let all = loaded::<T>(log);
    let r = all.filter(pred);
    lemma_filter(all, pred);
    assert forall|a: int, b: int| 0 <= a < b < r.len() implies T::key(#[trigger] r[a]) != T::key(
        #[trigger] r[b],
    ) && comes_before::<T>(log, r[a], r[b]) by {
        assert(in_order(all, r[a], r[b]));
        let (i, j) = choose|i: int, j: int|
            0 <= i < j < all.len() && #[trigger] all[i] == r[a] && #[trigger] all[j] == r[b];
        assert(T::key(all[i]) != T::key(all[j]));
    }
    assert forall|a: int| 0 <= a < r.len() implies latest::<T>(r, T::key(#[trigger] r[a])) == Some(
        r[a],
    ) && first_place::<T>(r, T::key(r[a])) == a by {
        lemma_latest::<T>(r, T::key(r[a]));
        lemma_latest_place::<T>(r, T::key(r[a]));
        let f = first_place::<T>(r, T::key(r[a])) as int;
        if f < a {
            assert(T::key(r[f]) != T::key(r[a]));
        }
        let v = latest::<T>(r, T::key(r[a]))->0;
        let i = choose|i: int| 0 <= i < r.len() && r[i] == v;
        if i < a {
            assert(T::key(r[i]) != T::key(r[a]));
        } else if a < i {
            assert(T::key(r[a]) != T::key(r[i]));
        }
    }
    assert forall|k: T::Key| #[trigger] latest::<T>(r, k) is Some implies exists|a: int|
        0 <= a < r.len() && T::key(r[a]) == k by {
        lemma_latest::<T>(r, k);
        assert(T::key(r[first_place::<T>(r, k) as int]) == k);
    }
    assert forall|a: int, b: int| 0 <= a < b < r.len() implies comes_before::<T>(
        r,
        #[trigger] r[a],
        #[trigger] r[b],
    ) by {
        assert(comes_before::<T>(log, r[a], r[b]));
        T::older_is_order(r[a], r[b], r[a]);
    }
    assert(is_loaded::<T>(r, r));
    law_loaded::<T>(r);
    law_loaded_unique::<T>(r, loaded::<T>(r), r);
}

/// A log that holds exactly what was read from another reads back the same.
pub proof fn law_load_of_loaded<T: Entry>(log: Seq<T::V>)
    ensures
        loaded::<T>(loaded::<T>(log)) == loaded::<T>(log),
{
    let all = |v: T::V| true;
    law_load_of_filtered::<T>(log, all);
    lemma_filter_all(loaded::<T>(log), all);
}

/// A record has the same latest version in a log and in what is read from it.
pub proof fn law_latest_of_loaded<T: Entry>(log: Seq<T::V>, k: T::Key)
    ensures
        latest::<T>(loaded::<T>(log), k) == latest::<T>(log, k),
{
    law_loaded::<T>(log);
    let r = loaded::<T>(log);
    lemma_latest::<T>(r, k);
    lemma_latest::<T>(log, k);
    lemma_latest_place::<T>(r, k);
    if latest::<T>(log, k) is Some {
        let v = latest::<T>(log, k)->0;
        assert(r.contains(v));
        let i = choose|i: int| 0 <= i < r.len() && r[i] == v;
        let u = latest::<T>(r, k)->0;
        let j = choose|j: int| 0 <= j < r.len() && r[j] == u;
        if i < j {
            assert(T::key(r[i]) != T::key(r[j]));
        } else if j < i {
            assert(T::key(r[j]) != T::key(r[i]));
        }
    } else if latest::<T>(r, k) is Some {
        let u = latest::<T>(r, k)->0;
        assert(r.contains(u));
    }
}

/// The latest version of a record stands at some place of the log.
proof fn lemma_latest_place<T: Entry>(log: Seq<T::V>, k: T::Key)
    ensures
        latest::<T>(log, k) matches Some(v) ==> exists|i: int| 0 <= i < log.len() && log[i] == v,
    decreases log.len(),
{
    if log.len() > 0 {
        lemma_latest_place::<T>(log.drop_last(), k);
        if T::key(log.last()) == k {
            assert(log[log.len() - 1] == log.last());
        } else if latest::<T>(log, k) is Some {
            let v = latest::<T>(log, k)->0;
            let i = choose|i: int| 0 <= i < log.drop_last().len() && log.drop_last()[i] == v;
            assert(log[i] == v);
        }
    }
}

/// A record that no later one with its key follows is the latest version of it, and is read back.
pub proof fn law_latest_is_last<T: Entry>(log: Seq<T::V>, i: int)
    requires
        0 <= i < log.len(),
        forall|j: int| i < j < log.len() ==> T::key(#[trigger] log[j]) != T::key(log[i]),
    ensures
        latest::<T>(log, T::key(log[i])) == Some(log[i]),
        loaded::<T>(log).contains(log[i]),
{
    lemma_last_is_latest::<T>(log, i);
    law_loaded::<T>(log);
}

/// The last record of a key is the latest.
proof fn lemma_last_is_latest<T: Entry>(log: Seq<T::V>, i: int)
    requires
        0 <= i < log.len(),
        forall|j: int| i < j < log.len() ==> T::key(#[trigger] log[j]) != T::key(log[i]),
    ensures
        latest::<T>(log, T::key(log[i])) == Some(log[i]),
    decreases log.len(),
{
    if i < log.len() - 1 {
        let front = log.drop_last();
        assert(T::key(log[log.len() - 1]) != T::key(log[i]));
        assert forall|j: int| i < j < front.len() implies T::key(#[trigger] front[j]) != T::key(
            front[i],
        ) by {
            assert(front[j] == log[j]);
        }
        lemma_last_is_latest::<T>(front, i);
    }
}

/// Where a record was first written, it was, and it was not before.
pub proof fn law_first_written<T: Entry>(log: Seq<T::V>, k: T::Key, i: int)
    ensures
        0 <= i < log.len() && T::key(log[i]) == k && (forall|j: int|
            0 <= j < i ==> T::key(#[trigger] log[j]) != k) ==> first_place::<T>(log, k) == i,
        (forall|j: int| 0 <= j < log.len() ==> T::key(#[trigger] log[j]) != k) ==> first_place::<T>(
            log,
            k,
        ) == log.len(),
    decreases log.len(),
{
    if log.len() > 0 {
        let front = log.drop_last();
        law_first_written::<T>(front, k, i);
        if forall|j: int| 0 <= j < log.len() ==> T::key(#[trigger] log[j]) != k {
            assert forall|j: int| 0 <= j < front.len() implies T::key(#[trigger] front[j]) != k by {
                assert(front[j] == log[j]);
            }
            assert(T::key(log[log.len() - 1]) != k);
        }
        if 0 <= i < log.len() && T::key(log[i]) == k && (forall|j: int|
            0 <= j < i ==> T::key(#[trigger] log[j]) != k) {
            assert forall|j: int| 0 <= j < i implies T::key(#[trigger] front[j]) != k by {
                assert(front[j] == log[j]);
            }
            if i < front.len() {
                assert(front[i] == log[i]);
            }
        }
    }
}

/// When a log is read back no record comes before an older one, and of records of the same age
/// the one comes first that was first written.
pub proof fn law_read_order<T: Entry>(log: Seq<T::V>, a: int, b: int)
    requires
        0 <= a < b < loaded::<T>(log).len(),
    ensures
        !T::older(loaded::<T>(log)[b], loaded::<T>(log)[a]),
        !T::older(loaded::<T>(log)[a], loaded::<T>(log)[b]) ==> first_place::<T>(
            log,
            T::key(loaded::<T>(log)[a]),
        ) < first_place::<T>(log, T::key(loaded::<T>(log)[b])),
{
    law_loaded::<T>(log);
    let r = loaded::<T>(log);
    assert(comes_before::<T>(log, r[a], r[b]));
    T::older_is_order(r[a], r[b], r[a]);
}

} // verus!
