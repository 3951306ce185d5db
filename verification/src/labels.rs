//! Labels as they are typed: in lists with commas, with white space around them.

use vstd::prelude::*;

use crate::jsonl::{is_blank, is_space, is_white_space};
use crate::text::{chars_of, contains_text, text_of, texts};

verus! {

/// The parts of a text between the separators in it.
pub open spec fn pieces(s: Seq<char>, sep: char) -> Seq<Seq<char>>
    decreases s.len(),
{
    if s.len() == 0 {
        seq![Seq::empty()]
    } else {
        let before = pieces(s.drop_last(), sep);
        if s.last() == sep {
            before.push(Seq::empty())
        } else {
            before.drop_last().push(before.last().push(s.last()))
        }
    }
}

/// A text without the white space at its end.
pub open spec fn trimmed_end(s: Seq<char>) -> Seq<char>
    decreases s.len(),
{
    if s.len() > 0 && is_space(s.last()) {
        trimmed_end(s.drop_last())
    } else {
        s
    }
}

/// A text without the white space at its start.
pub open spec fn trimmed_start(s: Seq<char>) -> Seq<char>
    decreases s.len(),
{
    if s.len() > 0 && is_space(s[0]) {
        trimmed_start(s.skip(1))
    } else {
        s
    }
}

/// A text without the white space around it.
pub open spec fn trimmed(s: Seq<char>) -> Seq<char> {
    trimmed_end(trimmed_start(s))
}

/// All parts of all texts of a list.
pub open spec fn all_pieces(labels: Seq<Seq<char>>) -> Seq<Seq<char>>
    decreases labels.len(),
{
    if labels.len() == 0 {
        Seq::empty()
    } else {
        all_pieces(labels.drop_last()) + pieces(labels.last(), ',')
    }
}

/// The parts without the white space around them, each where it comes first, and without
/// those that are empty.
pub open spec fn distinct(parts: Seq<Seq<char>>) -> Seq<Seq<char>>
    decreases parts.len(),
{
    if parts.len() == 0 {
        Seq::empty()
    } else {
        let before = distinct(parts.drop_last());
        let label = trimmed(parts.last());
        if label.len() == 0 || before.contains(label) {
            before
        } else {
            before.push(label)
        }
    }
}

/// The labels in the given lists.
pub open spec fn normalized(labels: Seq<Seq<char>>) -> Seq<Seq<char>> {
    distinct(all_pieces(labels))
}

/// Splits a comma-separated list.
pub fn split_csv(s: &str) -> (r: Vec<String>)
    ensures
        texts(r@) == pieces(s@, ','),
{
    let v = chars_of(s);
    let mut r: Vec<String> = Vec::new();
    let mut part = String::new();
    let mut i: usize = 0;
    assert(texts(r@).push(part@) =~= pieces(v@.take(0), ','));
    while i < v.len()
        invariant
            i <= v@.len(),
            texts(r@).push(part@) == pieces(v@.take(i as int), ','),
        decreases v@.len() - i,
    {
        let ghost done = texts(r@);
        let ghost open = part@;
        assert(v@.take(i + 1).drop_last() =~= v@.take(i as int));
        assert(done.push(open).drop_last() =~= done);
        if v[i] == ',' {
            r.push(part);
            part = String::new();
            assert(texts(r@) =~= done.push(open));
        } else {
            part.push(v[i]);
        }
        i += 1;
        assert(texts(r@).push(part@) =~= pieces(v@.take(i as int), ','));
    }
    assert(v@.take(v@.len() as int) =~= s@);
    let ghost done = texts(r@).push(part@);
    r.push(part);
    assert(texts(r@) =~= done);
    r
}

/// A text without the white space around it.
pub fn trim(s: &str) -> (r: String)
    ensures
        r@ == trimmed(s@),
{
    let v = chars_of(s);
    let mut from: usize = 0;
    assert(v@.skip(0) =~= v@);
    while from < v.len() && is_white_space(v[from])
        invariant
            from <= v@.len(),
            trimmed_start(v@) == trimmed_start(v@.skip(from as int)),
        decreases v@.len() - from,
    {
        assert(v@.skip(from as int).skip(1) =~= v@.skip(from + 1));
        from += 1;
    }
    let ghost rest = v@.skip(from as int);
    assert(trimmed_start(v@) == rest);
    let mut to: usize = v.len();
    assert(v@.subrange(from as int, to as int) =~= rest);
    while to > from && is_white_space(v[to - 1])
        invariant
            from <= to <= v@.len(),
            trimmed_end(rest) == trimmed_end(v@.subrange(from as int, to as int)),
        decreases to,
    {
        assert(v@.subrange(from as int, to as int).drop_last() =~= v@.subrange(
            from as int,
            to - 1,
        ));
        to -= 1;
    }
    text_of(&v, from, to)
}

/// The labels in the given lists: their parts between commas, without the white space around
/// them, without empty ones, and each only where it comes first.
pub fn normalize_labels(labels: &Vec<String>) -> (r: Vec<String>)
    ensures
        texts(r@) == normalized(texts(labels@)),
{
    let ghost given = texts(labels@);
    let mut r: Vec<String> = Vec::new();
    let mut i: usize = 0;
    assert(texts(r@) =~= distinct(all_pieces(given.take(0))));
    while i < labels.len()
        invariant
            i <= labels@.len(),
            given == texts(labels@),
            texts(r@) == distinct(all_pieces(given.take(i as int))),
        decreases labels@.len() - i,
    {
        let parts = split_csv(labels[i].as_str());
        let ghost before = all_pieces(given.take(i as int));
        let ghost more = texts(parts@);
        let mut k: usize = 0;
        assert(before + more.take(0) =~= before);
        while k < parts.len()
            invariant
                k <= parts@.len(),
                more == texts(parts@),
                texts(r@) == distinct(before + more.take(k as int)),
            decreases parts@.len() - k,
        {
            let label = trim(parts[k].as_str());
            let ghost old_r = texts(r@);
            proof {
                let now = before + more.take(k + 1);
                assert(now.drop_last() =~= before + more.take(k as int));
                assert(now.last() == more[k as int]);
            }
            if label.as_str().as_bytes().len() != 0 && !contains_text(&r, label.as_str()) {
                assert(label@.len() != 0) by {
                    if label@.len() == 0 {
                        assert(vstd::utf8::encode_utf8(label@) =~= Seq::empty());
                    }
                }
                let ghost text = label@;
                r.push(label);
                assert(texts(r@) =~= old_r.push(text));
            } else {
                assert(label@.len() == 0 || old_r.contains(label@)) by {
                    if vstd::utf8::encode_utf8(label@).len() == 0 {
                        let none = Seq::<char>::empty();
                        assert(vstd::utf8::encode_utf8(none) =~= Seq::empty());
                        assert(vstd::utf8::encode_utf8(label@) =~= Seq::empty());
                        crate::text::lemma_encode_utf8_injective(label@, none);
                    }
                }
            }
            k += 1;
        }
        assert(more.take(parts@.len() as int) =~= more);
        proof {
            let now = given.take(i + 1);
            assert(now.drop_last() =~= given.take(i as int));
            assert(now.last() == labels@[i as int]@);
        }
        i += 1;
    }
    assert(given.take(labels@.len() as int) =~= given);
    r
}

/// A trimmed text is trimmed: nothing is left to take away at either end.
proof fn lemma_trimmed(s: Seq<char>)
    ensures
        trimmed(trimmed(s)) == trimmed(s),
{
    let t = trimmed_start(s);
    lemma_trimmed_start(s);
    lemma_trimmed_end(t);
    let r = trimmed(s);
    assert(trimmed_start(r) == r);
    assert(trimmed_end(r) == r);
}

/// No white space is left at the start.
proof fn lemma_trimmed_start(s: Seq<char>)
    ensures
        trimmed_start(s).len() > 0 ==> !is_space(trimmed_start(s)[0]),
    decreases s.len(),
{
    if s.len() > 0 && is_space(s[0]) {
        lemma_trimmed_start(s.skip(1));
    }
}

/// No white space is left at the end, and the start stays.
proof fn lemma_trimmed_end(s: Seq<char>)
    ensures
        trimmed_end(s).len() > 0 ==> !is_space(trimmed_end(s).last()),
        trimmed_end(s).len() <= s.len(),
        trimmed_end(s) == s.take(trimmed_end(s).len() as int),
    decreases s.len(),
{
    if s.len() > 0 && is_space(s.last()) {
        lemma_trimmed_end(s.drop_last());
        assert(s.drop_last().take(trimmed_end(s).len() as int) =~= s.take(
            trimmed_end(s).len() as int,
        ));
    } else {
        assert(s.take(s.len() as int) =~= s);
    }
}

/// What is trimmed is a part of the text.
proof fn lemma_trimmed_within(s: Seq<char>, c: char)
    ensures
        trimmed(s).contains(c) ==> s.contains(c),
{
    lemma_start_within(s, c);
    let t = trimmed_start(s);
    lemma_trimmed_end(t);
    if trimmed(s).contains(c) {
        let i = choose|i: int| 0 <= i < trimmed(s).len() && trimmed(s)[i] == c;
        assert(t[i] == c);
    }
}

/// What is left after the start is a part of the text.
proof fn lemma_start_within(s: Seq<char>, c: char)
    ensures
        trimmed_start(s).contains(c) ==> s.contains(c),
    decreases s.len(),
{
    if s.len() > 0 && is_space(s[0]) {
        lemma_start_within(s.skip(1), c);
        if s.skip(1).contains(c) {
            let i = choose|i: int| 0 <= i < s.skip(1).len() && s.skip(1)[i] == c;
            assert(s[i + 1] == c);
        }
    }
}

/// No part of a text holds the separator, and a text without it is its only part.
proof fn lemma_pieces(s: Seq<char>, sep: char)
    ensures
        pieces(s, sep).len() > 0,
        forall|i: int| 0 <= i < pieces(s, sep).len() ==> !(#[trigger] pieces(s, sep)[i]).contains(sep),
        !s.contains(sep) ==> pieces(s, sep) == seq![s],
    decreases s.len(),
{
    if s.len() == 0 {
        assert(s =~= Seq::empty());
        assert(!Seq::<char>::empty().contains(sep));
    } else {
        let front = s.drop_last();
        lemma_pieces(front, sep);
        let before = pieces(front, sep);
        let all = pieces(s, sep);
        assert forall|i: int| 0 <= i < all.len() implies !(#[trigger] all[i]).contains(sep) by {
            if i < before.len() - 1 {
                assert(all[i] == before[i]);
            } else if s.last() == sep {
                if i == before.len() - 1 {
                    assert(all[i] == before[i]);
                }
            } else {
                let last = before[before.len() - 1];
                assert(all[i] == last.push(s.last()));
                if all[i].contains(sep) {
                    let k = choose|k: int| 0 <= k < all[i].len() && all[i][k] == sep;
                    assert(last[k] == sep);
                }
            }
        }
        if !s.contains(sep) {
            assert(s[s.len() - 1] != sep);
            assert(!front.contains(sep)) by {
                if front.contains(sep) {
                    let k = choose|k: int| 0 <= k < front.len() && front[k] == sep;
                    assert(s[k] == sep);
                }
            }
            assert(front.push(s.last()) =~= s);
            assert(all =~= seq![s]);
        }
    }
}

/// No part of the texts of a list holds a comma.
proof fn lemma_all_pieces(labels: Seq<Seq<char>>)
    ensures
        forall|i: int|
            0 <= i < all_pieces(labels).len() ==> !(#[trigger] all_pieces(labels)[i]).contains(','),
    decreases labels.len(),
{
    if labels.len() > 0 {
        lemma_all_pieces(labels.drop_last());
        lemma_pieces(labels.last(), ',');
        let before = all_pieces(labels.drop_last());
        let all = all_pieces(labels);
        assert forall|i: int| 0 <= i < all.len() implies !(#[trigger] all[i]).contains(',') by {
            if i < before.len() {
                assert(all[i] == before[i]);
            } else {
                assert(all[i] == pieces(labels.last(), ',')[i - before.len()]);
            }
        }
    }
}

/// What the distinct parts are: each is a trimmed part and not empty, every such part is
/// among them, and none comes twice.
proof fn lemma_distinct(parts: Seq<Seq<char>>)
    ensures
        distinct(parts).no_duplicates(),
        forall|label: Seq<char>| #[trigger]
            distinct(parts).contains(label) <==> label.len() > 0 && exists|i: int|
                0 <= i < parts.len() && trimmed(#[trigger] parts[i]) == label,
    decreases parts.len(),
{
    if parts.len() > 0 {
        let front = parts.drop_last();
        lemma_distinct(front);
        let before = distinct(front);
        let all = distinct(parts);
        let new = trimmed(parts.last());
        assert forall|label: Seq<char>| #[trigger] all.contains(label) <==> label.len() > 0
            && exists|i: int| 0 <= i < parts.len() && trimmed(#[trigger] parts[i]) == label by {
            if all.contains(label) {
                let k = choose|k: int| 0 <= k < all.len() && all[k] == label;
                if k < before.len() {
                    assert(before[k] == label);
                    assert(before.contains(label));
                    let i = choose|i: int|
                        0 <= i < front.len() && trimmed(#[trigger] front[i]) == label;
                    assert(parts[i] == front[i]);
                } else {
                    assert(trimmed(parts[parts.len() - 1]) == label);
                }
            }
            if label.len() > 0 && exists|i: int|
                0 <= i < parts.len() && trimmed(#[trigger] parts[i]) == label {
                let i = choose|i: int| 0 <= i < parts.len() && trimmed(#[trigger] parts[i]) == label;
                if i < front.len() {
                    assert(trimmed(front[i]) == label);
                    assert(before.contains(label));
                }
                if before.contains(label) {
                    let k = choose|k: int| 0 <= k < before.len() && before[k] == label;
                    assert(all[k] == label);
                } else {
                    assert(label == new);
                    assert(all[before.len() as int] == label);
                }
            }
        }
    } else {
        assert forall|label: Seq<char>| !(#[trigger] distinct(parts).contains(label)) by {
        }
    }
}

/// A label never comes twice, is never empty, and has neither white space around it nor a
/// comma in it; and every part of a list that holds more than white space is there.
pub proof fn law_labels(labels: Seq<Seq<char>>)
    ensures
        normalized(labels).no_duplicates(),
        forall|label: Seq<char>| #[trigger]
            normalized(labels).contains(label) ==> label.len() > 0 && trimmed(label) == label
                && !label.contains(','),
        forall|label: Seq<char>| #[trigger]
            normalized(labels).contains(label) <==> label.len() > 0 && exists|i: int|
                0 <= i < all_pieces(labels).len() && trimmed(#[trigger] all_pieces(labels)[i])
                    == label,
{
    let parts = all_pieces(labels);
    lemma_distinct(parts);
    lemma_all_pieces(labels);
    assert forall|label: Seq<char>| #[trigger] normalized(labels).contains(label) implies trimmed(
        label,
    ) == label && !label.contains(',') by {
        let i = choose|i: int| 0 <= i < parts.len() && trimmed(#[trigger] parts[i]) == label;
        lemma_trimmed(parts[i]);
        lemma_trimmed_within(parts[i], ',');
    }
}

/// Labels that are clean and differ are left as they are.
proof fn lemma_clean(labels: Seq<Seq<char>>)
    requires
        labels.no_duplicates(),
        forall|i: int|
            0 <= i < labels.len() ==> (#[trigger] labels[i]).len() > 0 && trimmed(labels[i])
                == labels[i] && !labels[i].contains(','),
    ensures
        all_pieces(labels) == labels,
        distinct(labels) == labels,
    decreases labels.len(),
{
    if labels.len() > 0 {
        let front = labels.drop_last();
        lemma_clean(front);
        lemma_pieces(labels.last(), ',');
        assert(labels.last() == labels[labels.len() - 1]);
        assert(all_pieces(labels) =~= labels);
        if front.contains(labels.last()) {
            let k = choose|k: int| 0 <= k < front.len() && front[k] == labels.last();
            assert(labels[k] == labels[labels.len() - 1]);
        }
        assert(distinct(labels) =~= labels);
    } else {
        assert(all_pieces(labels) =~= labels);
        assert(distinct(labels) =~= labels);
    }
}

/// Normal labels stay as they are.
pub proof fn law_normalize_twice(labels: Seq<Seq<char>>)
    ensures
        normalized(normalized(labels)) == normalized(labels),
{
    law_labels(labels);
    let n = normalized(labels);
    assert forall|i: int| 0 <= i < n.len() implies (#[trigger] n[i]).len() > 0 && trimmed(n[i])
        == n[i] && !n[i].contains(',') by {
        assert(n.contains(n[i]));
    }
    lemma_clean(n);
}

/// The parts of a text, joined by the separator, are the text again, and no part holds it.
pub proof fn law_pieces(s: Seq<char>, sep: char)
    ensures
        crate::text::joined(pieces(s, sep), seq![sep]) == s,
        forall|i: int| 0 <= i < pieces(s, sep).len() ==> !(#[trigger] pieces(s, sep)[i]).contains(
            sep,
        ),
    decreases s.len(),
{
    lemma_pieces(s, sep);
    let all = pieces(s, sep);
    let glue = seq![sep];
    if s.len() == 0 {
        assert(all[0] =~= s);
    } else {
        let front = s.drop_last();
        let before = pieces(front, sep);
        law_pieces(front, sep);
        lemma_pieces(front, sep);
        if s.last() == sep {
            assert(all.drop_last() =~= before);
            assert(crate::text::joined(all, glue) =~= front + glue + Seq::<char>::empty());
            assert(s =~= front + glue);
        } else {
            let last = before.last().push(s.last());
            assert(all.drop_last() =~= before.drop_last());
            assert(all.last() == last);
            if before.len() == 1 {
                assert(all.len() == 1);
                assert(crate::text::joined(all, glue) == last);
                assert(before[0] == front);
            } else {
                assert(crate::text::joined(all, glue) =~= (crate::text::joined(
                    before.drop_last(),
                    glue,
                ) + glue + before.last()).push(s.last()));
            }
            assert(front.push(s.last()) =~= s);
        }
    }
}

/// What is cut off at the end of a text is white space, and what is left does not end with any.
proof fn lemma_cut_end(s: Seq<char>)
    ensures
        ({
            let t = trimmed_end(s);
            &&& t.len() <= s.len() && s.take(t.len() as int) == t
            &&& forall|i: int| t.len() <= i < s.len() ==> is_space(#[trigger] s[i])
            &&& t.len() > 0 ==> !is_space(t.last())
        }),
    decreases s.len(),
{
    if s.len() > 0 && is_space(s.last()) {
        let front = s.drop_last();
        let t = trimmed_end(s);
        lemma_cut_end(front);
        assert(s.take(t.len() as int) =~= front.take(t.len() as int));
        assert forall|i: int| t.len() <= i < s.len() implies is_space(#[trigger] s[i]) by {
            if i < front.len() {
                assert(front[i] == s[i]);
            }
        }
    } else {
        assert(s.take(s.len() as int) =~= s);
    }
}

/// What is cut off at the start of a text is white space, and what is left does not start with
/// any.
proof fn lemma_cut_start(s: Seq<char>)
    ensures
        ({
            let t = trimmed_start(s);
            let n = s.len() - t.len();
            &&& 0 <= n && s.skip(n) == t
            &&& forall|i: int| 0 <= i < n ==> is_space(#[trigger] s[i])
            &&& t.len() > 0 ==> !is_space(t[0])
        }),
    decreases s.len(),
{
    if s.len() > 0 && is_space(s[0]) {
        let rest = s.skip(1);
        let t = trimmed_start(s);
        let n = s.len() - t.len();
        lemma_cut_start(rest);
        assert(s.skip(n) =~= rest.skip(n - 1));
        assert forall|i: int| 0 <= i < n implies is_space(#[trigger] s[i]) by {
            if i > 0 {
                assert(rest[i - 1] == s[i]);
            }
        }
    } else {
        assert(s.skip(0) =~= s);
    }
}

/// A text is white space, then what is left of it, then white space; and what is left neither
/// starts nor ends with white space.
pub proof fn law_trimmed(s: Seq<char>)
    ensures
        exists|n: int|
            0 <= n <= s.len() - trimmed(s).len() && s.subrange(n, n + trimmed(s).len()) == trimmed(s)
                && #[trigger] is_blank(s.take(n)) && is_blank(s.skip(n + trimmed(s).len())),
        trimmed(s).len() > 0 ==> !is_space(trimmed(s)[0]) && !is_space(trimmed(s).last()),
{
    let a = trimmed_start(s);
    let t = trimmed(s);
    let n = s.len() - a.len();
    lemma_cut_start(s);
    lemma_cut_end(a);
    assert(s.subrange(n, n + t.len()) =~= a.take(t.len() as int));
    let tail = s.skip(n + t.len());
    assert forall|i: int| 0 <= i < tail.len() implies is_space(#[trigger] tail[i]) by {
        assert(tail[i] == a[t.len() + i]);
    }
    assert(is_blank(s.take(n)));
    if t.len() > 0 {
        assert(t[0] == a[0]);
    }
}

/// The parts of a list are those of its first text, and then those of the others.
pub proof fn law_all_pieces(first: Seq<char>, labels: Seq<Seq<char>>)
    ensures
        all_pieces(Seq::empty()).len() == 0,
        all_pieces(seq![first] + labels) == pieces(first, ',') + all_pieces(labels),
    decreases labels.len(),
{
    let all = seq![first] + labels;
    if labels.len() == 0 {
        assert(all.drop_last() =~= Seq::<Seq<char>>::empty());
        assert(all.last() == first);
        assert(all_pieces(Seq::<Seq<char>>::empty()) =~= Seq::<Seq<char>>::empty());
        assert(all_pieces(labels) =~= Seq::<Seq<char>>::empty());
        assert(all_pieces(all) =~= pieces(first, ',') + all_pieces(labels));
    } else {
        law_all_pieces(first, labels.drop_last());
        assert(all.drop_last() =~= seq![first] + labels.drop_last());
        assert(all_pieces(all) =~= pieces(first, ',') + all_pieces(labels));
    }
}

/// Of two labels the one comes first that is the first among the parts.
pub proof fn law_labels_in_order(parts: Seq<Seq<char>>, a: int, b: int)
    requires
        0 <= a < b < distinct(parts).len(),
    ensures
        exists|i: int|
            0 <= i < parts.len() && trimmed(#[trigger] parts[i]) == distinct(parts)[a] && forall|
                j: int,
            |
                0 <= j <= i ==> trimmed(#[trigger] parts[j]) != distinct(parts)[b],
    decreases parts.len(),
{
    let front = parts.drop_last();
    let before = distinct(front);
    let all = distinct(parts);
    lemma_distinct(front);
    lemma_distinct(parts);
    assert(all[a] == before[a]);
    if b < before.len() {
        assert(all[b] == before[b]);
        law_labels_in_order(front, a, b);
        let i = choose|i: int|
            0 <= i < front.len() && trimmed(#[trigger] front[i]) == before[a] && forall|j: int|
                0 <= j <= i ==> trimmed(#[trigger] front[j]) != before[b];
        assert(parts[i] == front[i]);
        assert forall|j: int| 0 <= j <= i implies trimmed(#[trigger] parts[j]) != all[b] by {
            assert(front[j] == parts[j]);
        }
    } else {
        assert(before.contains(before[a]));
        let i = choose|i: int| 0 <= i < front.len() && trimmed(#[trigger] front[i]) == before[a];
        assert(parts[i] == front[i]);
        assert(!before.contains(all[b]));
        assert(all.contains(all[b]));
        assert forall|j: int| 0 <= j <= i implies trimmed(#[trigger] parts[j]) != all[b] by {
            assert(front[j] == parts[j]);
        }
    }
}

} // verus!
