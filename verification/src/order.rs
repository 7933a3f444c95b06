//! Texts in order.
use crate::text;
use vstd::prelude::*;
use vstd::relations::*;
use vstd::seq_lib::*;

verus! {

/// Whether a text comes before another, or is the same: lexicographically, by
/// the numbers of their characters.
pub open spec fn text_le(a: Seq<char>, b: Seq<char>) -> bool
    decreases a.len(),
{
    if a.len() == 0 {
        true
    } else if b.len() == 0 {
        false
    } else if a[0] != b[0] {
        a[0] < b[0]
    } else {
        text_le(a.drop_first(), b.drop_first())
    }
}

/// The order of texts.
pub open spec fn text_order() -> spec_fn(Seq<char>, Seq<char>) -> bool {
    |a: Seq<char>, b: Seq<char>| text_le(a, b)
}

proof fn lemma_le_reflexive(a: Seq<char>)
    ensures
        text_le(a, a),
    decreases a.len(),
{
    if a.len() > 0 {
        lemma_le_reflexive(a.drop_first());
    }
}

proof fn lemma_le_antisymmetric(a: Seq<char>, b: Seq<char>)
    requires
        text_le(a, b),
        text_le(b, a),
    ensures
        a == b,
    decreases a.len(),
{
    if a.len() > 0 && b.len() > 0 {
        lemma_le_antisymmetric(a.drop_first(), b.drop_first());
        assert(a =~= seq![a[0]] + a.drop_first());
        assert(b =~= seq![b[0]] + b.drop_first());
    } else {
        assert(a =~= b);
    }
}

proof fn lemma_le_transitive(a: Seq<char>, b: Seq<char>, c: Seq<char>)
    requires
        text_le(a, b),
        text_le(b, c),
    ensures
        text_le(a, c),
    decreases a.len(),
{
    if a.len() > 0 && b.len() > 0 && c.len() > 0 && a[0] == b[0] && b[0] == c[0] {
        lemma_le_transitive(a.drop_first(), b.drop_first(), c.drop_first());
    }
}

proof fn lemma_le_total(a: Seq<char>, b: Seq<char>)
    ensures
        text_le(a, b) || text_le(b, a),
    decreases a.len(),
{
    if a.len() > 0 && b.len() > 0 && a[0] == b[0] {
        lemma_le_total(a.drop_first(), b.drop_first());
    }
}

/// The order of texts is a total order.
pub proof fn lemma_text_order()
    ensures
        total_ordering(text_order()),
{
    let r = text_order();
    assert forall|x: Seq<char>| #[trigger] r(x, x) by {
        lemma_le_reflexive(x);
    }
    assert forall|x: Seq<char>, y: Seq<char>| #[trigger] r(x, y) && #[trigger] r(y, x) implies x
        == y by {
        lemma_le_antisymmetric(x, y);
    }
    assert forall|x: Seq<char>, y: Seq<char>, z: Seq<char>| #[trigger]
        r(x, y) && #[trigger] r(y, z) implies r(x, z) by {
        lemma_le_transitive(x, y, z);
    }
    assert forall|x: Seq<char>, y: Seq<char>| #[trigger] r(x, y) || #[trigger] r(y, x) by {
        lemma_le_total(x, y);
    }
}

/// Whether a text comes before another, or is the same.
pub(crate) fn at_most(a: &str, b: &str) -> (r: bool)
    ensures
        r == text_le(a@, b@),
{
    let m = a.unicode_len();
    let n = b.unicode_len();
    let mut i: usize = 0;
    assert(a@.skip(0) =~= a@);
    assert(b@.skip(0) =~= b@);
    while i < m && i < n
        invariant
            m == a@.len(),
            n == b@.len(),
            i <= m,
            i <= n,
            text_le(a@, b@) == text_le(a@.skip(i as int), b@.skip(i as int)),
        decreases m - i,
    {
        let x = a.get_char(i);
        let y = b.get_char(i);
        if x != y {
            return x < y;
        }
        assert(a@.skip(i as int).drop_first() =~= a@.skip(i + 1));
        assert(b@.skip(i as int).drop_first() =~= b@.skip(i + 1));
        i += 1;
    }
    i == m
}

/// Texts in order, with as many of each as there were.
pub(crate) fn sorted(v: &Vec<String>) -> (r: Vec<String>)
    ensures
        text::texts(r@) == text::texts(v@).sort_by(text_order()),
{
    let mut out: Vec<String> = Vec::new();
    let ghost all = text::texts(v@);
    proof {
        lemma_text_order();
        assert(text::texts(out@) =~= all.take(0));
    }
    for i in 0..v.len()
        invariant
            all == text::texts(v@),
            total_ordering(text_order()),
            out@.len() == i,
            sorted_by(text::texts(out@), text_order()),
            text::texts(out@).to_multiset() == all.take(i as int).to_multiset(),
    {
        let item = v[i].clone();
        let ghost x = item@;
        let ghost before = text::texts(out@);
        let mut at: usize = 0;
        while at < out.len() && at_most(out[at].as_str(), item.as_str())
            invariant
                at <= out@.len(),
                out@.len() == i,
                before == text::texts(out@),
                x == item@,
                forall|j: int| 0 <= j < at ==> text_le(#[trigger] before[j], x),
            ensures
                at <= out@.len(),
                forall|j: int| 0 <= j < at ==> text_le(#[trigger] before[j], x),
                at < out@.len() ==> !text_le(before[at as int], x),
            decreases out@.len() - at,
        {
            at += 1;
        }
        out.insert(at, item);
        proof {
            let after = text::texts(out@);
            assert(after =~= before.insert(at as int, x));
            to_multiset_insert(before, at as int, x);
            to_multiset_build(all.take(i as int), x);
            assert(all.take(i + 1) =~= all.take(i as int).push(x));
            lemma_insert_sorted(before, at as int, x);
        }
    }
    proof {
        assert(all.take(all.len() as int) =~= all);
        all.lemma_sort_by_ensures(text_order());
        lemma_sorted_unique(text::texts(out@), all.sort_by(text_order()), text_order());
    }
    out
}

proof fn lemma_insert_sorted(s: Seq<Seq<char>>, at: int, x: Seq<char>)
    requires
        total_ordering(text_order()),
        sorted_by(s, text_order()),
        0 <= at <= s.len(),
        forall|j: int| 0 <= j < at ==> text_le(#[trigger] s[j], x),
        at < s.len() ==> !text_le(s[at], x),
    ensures
        sorted_by(s.insert(at, x), text_order()),
{
    let r = text_order();
    let t = s.insert(at, x);
    assert forall|i: int, j: int| 0 <= i < j < t.len() implies #[trigger] r(t[i], t[j]) by {
        if i < at && j < at {
            assert(r(s[i], s[j]));
        } else if i < at && j == at {
            assert(text_le(s[i], x));
        } else if i < at && j > at {
            assert(r(s[i], s[j - 1]));
        } else if i == at {
            lemma_le_total(s[at], x);
            if j - 1 > at {
                assert(r(s[at], s[j - 1]));
                lemma_le_transitive(x, s[at], s[j - 1]);
            }
        } else {
            assert(r(s[i - 1], s[j - 1]));
        }
    }
}

/// A list without the entries that repeat the one before them.
pub open spec fn distinct(s: Seq<Seq<char>>) -> Seq<Seq<char>>
    decreases s.len(),
{
    if s.len() == 0 {
        Seq::empty()
    } else {
        let before = distinct(s.drop_last());
        if s.len() > 1 && s[s.len() - 2] == s.last() {
            before
        } else {
            before.push(s.last())
        }
    }
}

/// Drops the entries that repeat the one before them.
pub(crate) fn without_repeats(v: &Vec<String>) -> (r: Vec<String>)
    ensures
        text::texts(r@) == distinct(text::texts(v@)),
        r@.len() <= v@.len(),
{
    let mut out: Vec<String> = Vec::new();
    let ghost all = text::texts(v@);
    assert(text::texts(out@) =~= distinct(all.take(0)));
    for i in 0..v.len()
        invariant
            all == text::texts(v@),
            text::texts(out@) == distinct(all.take(i as int)),
            out@.len() <= i,
    {
        let ghost before = out@;
        proof {
            let s = all.take(i + 1);
            assert(s.drop_last() =~= all.take(i as int));
            assert(s.last() == v@[i as int]@);
            if i > 0 {
                assert(s[s.len() - 2] == v@[i - 1]@);
            }
        }
        if i == 0 || v[i - 1] != v[i] {
            out.push(v[i].clone());
            assert(text::texts(out@) =~= text::texts(before).push(v@[i as int]@));
        }
    }
    assert(all.take(all.len() as int) =~= all);
    out
}

/// The order goes by the first place where two texts differ, and a text comes before
/// what it begins.
pub proof fn lemma_le_decided(a: Seq<char>, b: Seq<char>, n: int)
    requires
        0 <= n <= a.len(),
        n <= b.len(),
        forall|i: int| 0 <= i < n ==> #[trigger] a[i] == b[i],
    ensures
        n < a.len() && n < b.len() && a[n] != b[n] ==> (text_le(a, b) <==> (a[n] as int)
            < b[n] as int),
        n == a.len() ==> text_le(a, b),
        n == b.len() && n < a.len() ==> !text_le(a, b),
    decreases n,
{
    if n > 0 {
        let x = a.drop_first();
        let y = b.drop_first();
        assert forall|i: int| 0 <= i < n - 1 implies #[trigger] x[i] == y[i] by {
            assert(x[i] == a[i + 1]);
            assert(y[i] == b[i + 1]);
        }
        assert(a[0] == b[0]);
        lemma_le_decided(x, y, n - 1);
        if n < a.len() {
            assert(x[n - 1] == a[n]);
        }
        if n < b.len() {
            assert(y[n - 1] == b[n]);
        }
    }
}

/// Dropping repeats leaves every text of the list and no others, and of a sorted list
/// each once and in order.
pub proof fn lemma_distinct(s: Seq<Seq<char>>, x: Seq<char>)
    ensures
        distinct(s).contains(x) <==> s.contains(x),
        distinct(s).len() <= s.len(),
        sorted_by(s, text_order()) ==> distinct(s).no_duplicates() && sorted_by(
            distinct(s),
            text_order(),
        ),
        s.len() > 0 ==> distinct(s).len() > 0 && distinct(s).last() == s.last(),
    decreases s.len(),
{
    if s.len() > 0 {
        let before = s.drop_last();
        let kept = distinct(before);
        let all = distinct(s);
        lemma_distinct(before, x);
        lemma_distinct(before, s.last());
        let repeats = s.len() > 1 && s[s.len() - 2] == s.last();
        if repeats {
            assert(before.last() == s.last());
        }
        if s.contains(x) {
            let i = choose|i: int| 0 <= i < s.len() && s[i] == x;
            if i < before.len() {
                assert(before[i] == x);
                let j = choose|j: int| 0 <= j < kept.len() && kept[j] == x;
                assert(all[j] == x);
            } else {
                assert(all[all.len() - 1] == x);
            }
        }
        if all.contains(x) {
            let j = choose|j: int| 0 <= j < all.len() && all[j] == x;
            if j < kept.len() {
                assert(kept[j] == x);
                let i = choose|i: int| 0 <= i < before.len() && before[i] == x;
                assert(s[i] == x);
            } else {
                assert(s[s.len() - 1] == x);
            }
        }
        if sorted_by(s, text_order()) {
            let le = text_order();
            assert forall|i: int, j: int| 0 <= i < j < before.len() implies #[trigger] le(
                before[i],
                before[j],
            ) by {
                assert(le(s[i], s[j]));
            }
            assert(sorted_by(before, le));
            if !repeats && before.contains(s.last()) {
                let i = choose|i: int| 0 <= i < before.len() && before[i] == s.last();
                let last = before.len() - 1;
                if i < last {
                    assert(le(s[i], s[last]));
                }
                assert(le(s[last], s[last + 1]));
                if i < last {
                    lemma_le_antisymmetric(s[last], s.last());
                }
                assert(false);
            }
            if !repeats {
                assert forall|i: int, j: int| 0 <= i < j < all.len() implies #[trigger] le(
                    all[i],
                    all[j],
                ) by {
                    if j < kept.len() {
                        assert(le(kept[i], kept[j]));
                    } else {
                        lemma_distinct(before, kept[i]);
                        assert(kept.contains(kept[i]));
                        let k = choose|k: int| 0 <= k < before.len() && before[k] == kept[i];
                        assert(le(s[k], s[s.len() - 1]));
                    }
                }
                assert forall|i: int, j: int|
                    0 <= i < all.len() && 0 <= j < all.len() && i != j implies all[i] != all[j] by {
                    if i == all.len() - 1 {
                        assert(kept[j] == all[j]);
                    }
                    if j == all.len() - 1 {
                        assert(kept[i] == all[i]);
                    }
                }
            }
        }
    }
}

} // verus!
