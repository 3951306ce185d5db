//! Facts about sequences.

use vstd::prelude::*;

verus! {

/// Whether `x` stands before `y` somewhere in `s`.
pub open spec fn in_order<A>(s: Seq<A>, x: A, y: A) -> bool {
    exists|i: int, j: int| 0 <= i < j < s.len() && #[trigger] s[i] == x && #[trigger] s[j] == y
}

/// Filtering keeps exactly the elements that are asked for, and their order.
pub proof fn lemma_filter<A>(s: Seq<A>, pred: spec_fn(A) -> bool)
    ensures
        s.filter(pred).len() <= s.len(),
        forall|x: A|
            #![trigger s.filter(pred).contains(x)]
            #![trigger s.contains(x)]
            s.filter(pred).contains(x) <==> s.contains(x) && pred(x),
        forall|a: int| 0 <= a < s.filter(pred).len() ==> pred(#[trigger] s.filter(pred)[a]),
        forall|a: int, b: int|
            #![trigger s.filter(pred)[a], s.filter(pred)[b]]
            0 <= a < b < s.filter(pred).len() ==> in_order(
                s,
                s.filter(pred)[a],
                s.filter(pred)[b],
            ),
    decreases s.len(),
{
    reveal(Seq::filter);
    let f = s.filter(pred);
    if s.len() > 0 {
        let t = s.drop_last();
        let g = t.filter(pred);
        lemma_filter(t, pred);
        assert forall|x: A|
            #![trigger f.contains(x)]
            #![trigger s.contains(x)]
            f.contains(x) <==> s.contains(x) && pred(x) by {
            if f.contains(x) {
                let a = choose|a: int| 0 <= a < f.len() && f[a] == x;
                if a < g.len() {
                    assert(g[a] == x);
                    assert(g.contains(x));
                    let i = choose|i: int| 0 <= i < t.len() && t[i] == x;
                    assert(s[i] == x);
                } else {
                    assert(s[s.len() - 1] == x);
                }
            }
            if s.contains(x) && pred(x) {
                let i = choose|i: int| 0 <= i < s.len() && s[i] == x;
                if i < t.len() {
                    assert(t[i] == x);
                    assert(g.contains(x));
                    let a = choose|a: int| 0 <= a < g.len() && g[a] == x;
                    assert(f[a] == x);
                } else {
                    assert(f[g.len() as int] == x);
                }
            }
        }
        assert forall|a: int| 0 <= a < f.len() implies pred(#[trigger] f[a]) by {
            assert(f.contains(f[a]));
        }
        assert forall|a: int, b: int|
            #![trigger f[a], f[b]]
            0 <= a < b < f.len() implies in_order(s, f[a], f[b]) by {
            assert(f[a] == g[a]);
            if b < g.len() {
                assert(f[b] == g[b]);
                assert(in_order(t, g[a], g[b]));
                let (i, j) = choose|i: int, j: int|
                    0 <= i < j < t.len() && t[i] == g[a] && t[j] == g[b];
                assert(s[i] == f[a] && s[j] == f[b]);
            } else {
                assert(g.contains(g[a]));
                let i = choose|i: int| 0 <= i < t.len() && t[i] == g[a];
                assert(s[i] == f[a] && s[s.len() - 1] == f[b]);
            }
        }
    }
}

/// What a sequence holds after one more element is put into it.
pub proof fn lemma_insert<A>(s: Seq<A>, at: int, x: A)
    requires
        0 <= at <= s.len(),
    ensures
        forall|y: A| #[trigger] s.insert(at, x).contains(y) <==> s.contains(y) || y == x,
        s.no_duplicates() && !s.contains(x) ==> s.insert(at, x).no_duplicates(),
{
    let t = s.insert(at, x);
    assert forall|y: A| #[trigger] t.contains(y) <==> s.contains(y) || y == x by {
        if t.contains(y) {
            let i = choose|i: int| 0 <= i < t.len() && t[i] == y;
            if i < at {
                assert(s[i] == y);
            } else if i > at {
                assert(s[i - 1] == y);
            }
        }
        if s.contains(y) {
            let i = choose|i: int| 0 <= i < s.len() && s[i] == y;
            if i < at {
                assert(t[i] == y);
            } else {
                assert(t[i + 1] == y);
            }
        }
        assert(t[at] == x);
    }
    if s.no_duplicates() && !s.contains(x) {
        assert forall|i: int, j: int| 0 <= i < t.len() && 0 <= j < t.len() && i != j implies t[i]
            != t[j] by {
            let k = if i < at {
                i
            } else {
                i - 1
            };
            let l = if j < at {
                j
            } else {
                j - 1
            };
            if i == at {
                assert(t[j] == s[l]);
            } else if j == at {
                assert(t[i] == s[k]);
            } else {
                assert(t[i] == s[k] && t[j] == s[l]);
            }
        }
    }
}

/// What one more element adds to the filtered and mapped elements.
pub proof fn lemma_filter_map_step<A, B>(
    s: Seq<A>,
    pred: spec_fn(A) -> bool,
    f: spec_fn(A) -> B,
    n: int,
)
    requires
        0 < n <= s.len(),
    ensures
        s.take(n).filter(pred).map_values(f) == if pred(s[n - 1]) {
            s.take(n - 1).filter(pred).map_values(f).push(f(s[n - 1]))
        } else {
            s.take(n - 1).filter(pred).map_values(f)
        },
{
    reveal(Seq::filter);
    assert(s.take(n).drop_last() =~= s.take(n - 1));
    assert(s.take(n).last() == s[n - 1]);
    let kept = s.take(n - 1).filter(pred);
    if pred(s[n - 1]) {
        assert(kept.push(s[n - 1]).map_values(f) =~= kept.map_values(f).push(f(s[n - 1])));
    }
}

/// Filtering twice is filtering once.
pub proof fn lemma_filter_twice<A>(s: Seq<A>, pred: spec_fn(A) -> bool)
    ensures
        s.filter(pred).filter(pred) == s.filter(pred),
    decreases s.len(),
{
    reveal(Seq::filter);
    if s.len() > 0 {
        lemma_filter_twice(s.drop_last(), pred);
        let kept = s.drop_last().filter(pred);
        if pred(s.last()) {
            assert(kept.push(s.last()).drop_last() =~= kept);
        }
    }
}

/// Filtering by what holds of all elements keeps all.
pub proof fn lemma_filter_all<A>(s: Seq<A>, pred: spec_fn(A) -> bool)
    requires
        forall|i: int| 0 <= i < s.len() ==> pred(#[trigger] s[i]),
    ensures
        s.filter(pred) == s,
    decreases s.len(),
{
    reveal(Seq::filter);
    if s.len() > 0 {
        lemma_filter_all(s.drop_last(), pred);
        assert(pred(s[s.len() - 1]));
        assert(s.drop_last().push(s.last()) =~= s);
    }
}

/// Leaving out an element that a filter drops changes nothing of what it keeps.
pub proof fn lemma_remove_dropped<A>(s: Seq<A>, pred: spec_fn(A) -> bool, i: int)
    requires
        0 <= i < s.len(),
        !pred(s[i]),
    ensures
        s.remove(i).filter(pred) == s.filter(pred),
{
    let a = s.take(i);
    let x = seq![s[i]];
    let b = s.skip(i + 1);
    assert(s =~= a + x + b);
    assert(s.remove(i) =~= a + b);
    Seq::filter_distributes_over_add(a + x, b, pred);
    Seq::filter_distributes_over_add(a, x, pred);
    Seq::filter_distributes_over_add(a, b, pred);
    lemma_filter(x, pred);
    if x.filter(pred).len() > 0 {
        assert(x.filter(pred).contains(x.filter(pred)[0]));
    }
    assert(x.filter(pred) =~= Seq::<A>::empty());
    assert(a.filter(pred) + x.filter(pred) =~= a.filter(pred));
}

} // verus!
