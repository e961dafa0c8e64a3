//! Sorted lists of texts without duplicates. Texts are ordered character by character, which is
//! also the order of their UTF-8 bytes.

use crate::text::{chars_of, texts};
use vstd::prelude::*;

verus! {

/// `a` comes before `b`.
pub open spec fn comes_before(a: Seq<char>, b: Seq<char>) -> bool
    decreases b.len(),
{
    if b.len() == 0 {
        false
    } else if a.len() == 0 {
        true
    } else if a[0] != b[0] {
        a[0] < b[0]
    } else {
        comes_before(a.skip(1), b.skip(1))
    }
}

/// Each text comes before all later ones.
pub open spec fn increasing(list: Seq<Seq<char>>) -> bool {
    forall|i: int, j: int|
        #![trigger list[i], list[j]]
        0 <= i < j < list.len() ==> comes_before(list[i], list[j])
}

/// No text comes before itself.
pub proof fn lemma_irreflexive(a: Seq<char>)
    ensures
        !comes_before(a, a),
    decreases a.len(),
{
    if a.len() > 0 {
        lemma_irreflexive(a.skip(1));
    }
}

/// What comes before something that comes before a third comes before the third.
pub proof fn lemma_transitive(a: Seq<char>, b: Seq<char>, c: Seq<char>)
    requires
        comes_before(a, b),
        comes_before(b, c),
    ensures
        comes_before(a, c),
    decreases c.len(),
{
    if a.len() > 0 && a[0] == b[0] && b[0] == c[0] {
        lemma_transitive(a.skip(1), b.skip(1), c.skip(1));
    }
}

/// Of two different texts one comes before the other.
pub proof fn lemma_total(a: Seq<char>, b: Seq<char>)
    ensures
        a == b || comes_before(a, b) || comes_before(b, a),
    decreases a.len(),
{
    if a.len() == 0 {
        if b.len() == 0 {
            assert(a =~= b);
        }
    } else if b.len() > 0 && a[0] == b[0] {
        lemma_total(a.skip(1), b.skip(1));
        if a.skip(1) == b.skip(1) {
            assert(a =~= seq![a[0]] + a.skip(1));
            assert(b =~= seq![b[0]] + b.skip(1));
        }
    }
}

/// A sorted list without duplicates is fixed by what is in it.
pub proof fn law_sorted_list_is_unique(a: Seq<Seq<char>>, b: Seq<Seq<char>>)
    requires
        increasing(a),
        increasing(b),
        forall|t: Seq<char>| a.contains(t) <==> b.contains(t),
    ensures
        a == b,
    decreases a.len(),
{
    if a.len() == 0 {
        if b.len() > 0 {
            assert(b.contains(b[0]));
        }
        assert(a =~= b);
    } else {
        assert(a.contains(a.last()));
        assert(b.contains(a.last()));
        assert(b.contains(b.last()));
        assert(a.contains(b.last()));
        let i = choose|i: int| 0 <= i < b.len() && b[i] == a.last();
        let j = choose|j: int| 0 <= j < a.len() && a[j] == b.last();
        if a.last() != b.last() {
            assert(comes_before(b[i], b[b.len() - 1]));
            assert(comes_before(a[j], a[a.len() - 1]));
            lemma_transitive(a.last(), b.last(), a.last());
            lemma_irreflexive(a.last());
        }
        let x = a.drop_last();
        let y = b.drop_last();
        lemma_irreflexive(a.last());
        assert forall|t: Seq<char>| x.contains(t) <==> y.contains(t) by {
            if x.contains(t) {
                let k = choose|k: int| 0 <= k < x.len() && x[k] == t;
                assert(a[k] == t);
                assert(comes_before(a[k], a[a.len() - 1]));
                assert(a.contains(t));
                assert(b.contains(t));
                let l = choose|l: int| 0 <= l < b.len() && b[l] == t;
                assert(l < b.len() - 1);
                assert(y[l] == t);
            }
            if y.contains(t) {
                let k = choose|k: int| 0 <= k < y.len() && y[k] == t;
                assert(b[k] == t);
                assert(comes_before(b[k], b[b.len() - 1]));
                assert(b.contains(t));
                assert(a.contains(t));
                let l = choose|l: int| 0 <= l < a.len() && a[l] == t;
                assert(l < a.len() - 1);
                assert(x[l] == t);
            }
        }
        law_sorted_list_is_unique(x, y);
        assert(a =~= x.push(a.last()));
        assert(b =~= y.push(b.last()));
    }
}

/// Whether `a` comes before `b`.
pub fn is_before(a: &str, b: &str) -> (yes: bool)
    ensures
        yes == comes_before(a@, b@),
{
    let x = chars_of(a);
    let y = chars_of(b);
    let mut i: usize = 0;
    assert(a@.skip(0) =~= a@);
    assert(b@.skip(0) =~= b@);
    while i < x.len() && i < y.len()
        invariant
            x@ == a@,
            y@ == b@,
            i <= x@.len(),
            i <= y@.len(),
            comes_before(a@, b@) == comes_before(a@.skip(i as int), b@.skip(i as int)),
        decreases x@.len() - i,
    {
        assert(a@.skip(i as int)[0] == x@[i as int]);
        assert(b@.skip(i as int)[0] == y@[i as int]);
        assert(a@.skip(i as int).skip(1) =~= a@.skip(i + 1));
        assert(b@.skip(i as int).skip(1) =~= b@.skip(i + 1));
        if x[i] != y[i] {
            return x[i] < y[i];
        }
        i += 1;
    }
    i < y.len()
}

/// Puts a text in its place in a sorted list, unless it is there.
pub fn insert_sorted(list: &mut Vec<String>, text: String)
    requires
        increasing(texts(old(list)@)),
    ensures
        increasing(texts(final(list)@)),
        forall|t: Seq<char>|
            texts(final(list)@).contains(t) <==> (texts(old(list)@).contains(t) || t == text@),
{
    let ghost before = texts(list@);
    let mut i: usize = 0;
    while i < list.len() && is_before(list[i].as_str(), text.as_str())
        invariant
            i <= list@.len(),
            before == texts(list@),
            forall|k: int| 0 <= k < i ==> comes_before(#[trigger] before[k], text@),
        decreases list@.len() - i,
    {
        i += 1;
    }
    if i < list.len() && !is_before(text.as_str(), list[i].as_str()) {
        proof {
            lemma_total(text@, before[i as int]);
            assert(before[i as int] == text@);
        }
        return ;
    }
    let ghost t = text@;
    list.insert(i, text);
    let ghost after = texts(list@);
    assert(after =~= before.insert(i as int, t));
    assert forall|a: int, b: int|
        #![trigger after[a], after[b]]
        0 <= a < b < after.len() implies comes_before(after[a], after[b]) by {
        if a < i && b < i {
            assert(comes_before(before[a], before[b]));
        } else if a < i && b == i {
            assert(comes_before(before[a], t));
        } else if a < i {
            assert(comes_before(before[a], before[b - 1]));
        } else if a == i {
            if b - 1 > i {
                assert(comes_before(before[i as int], before[b - 1]));
                lemma_transitive(t, before[i as int], before[b - 1]);
            }
        } else {
            assert(comes_before(before[a - 1], before[b - 1]));
        }
    }
    assert forall|x: Seq<char>| after.contains(x) <==> (before.contains(x) || x == t) by {
        if after.contains(x) {
            let k = choose|k: int| 0 <= k < after.len() && after[k] == x;
            if k < i {
                assert(before[k] == x);
            } else if k > i {
                assert(before[k - 1] == x);
            }
        }
        if before.contains(x) {
            let k = choose|k: int| 0 <= k < before.len() && before[k] == x;
            if k < i {
                assert(after[k] == x);
            } else {
                assert(after[k + 1] == x);
            }
        }
        assert(after[i as int] == t);
    }
}

// ---------------------------------------------------------------------------
// Laws
// ---------------------------------------------------------------------------

/// A text comes before another if it is the beginning of the other and shorter, or if it has the
/// smaller character at the first place where they differ; and in no other case.
pub proof fn law_first_difference_decides(a: Seq<char>, b: Seq<char>)
    ensures
        comes_before(a, b) <==> exists|n: int|
            {
                &&& 0 <= n <= a.len()
                &&& n < b.len()
                &&& #[trigger] a.take(n) == b.take(n)
                &&& n < a.len() ==> a[n] < b[n]
            },
    decreases b.len(),
{
    if b.len() > 0 && a.len() > 0 && a[0] == b[0] {
        let x = a.skip(1);
        let y = b.skip(1);
        law_first_difference_decides(x, y);
        if comes_before(a, b) {
            let n = choose|n: int|
                {
                    &&& 0 <= n <= x.len()
                    &&& n < y.len()
                    &&& #[trigger] x.take(n) == y.take(n)
                    &&& n < x.len() ==> x[n] < y[n]
                };
            assert forall|k: int| 0 <= k < n + 1 implies a[k] == b[k] by {
                if k > 0 {
                    assert(x.take(n)[k - 1] == y.take(n)[k - 1]);
                }
            }
            assert(a.take(n + 1) =~= b.take(n + 1));
        }
        if exists|n: int|
            {
                &&& 0 <= n <= a.len()
                &&& n < b.len()
                &&& #[trigger] a.take(n) == b.take(n)
                &&& n < a.len() ==> a[n] < b[n]
            } {
            let n = choose|n: int|
                {
                    &&& 0 <= n <= a.len()
                    &&& n < b.len()
                    &&& #[trigger] a.take(n) == b.take(n)
                    &&& n < a.len() ==> a[n] < b[n]
                };
            assert(n > 0);
            assert forall|k: int| 0 <= k < n - 1 implies x[k] == y[k] by {
                assert(a.take(n)[k + 1] == b.take(n)[k + 1]);
            }
            assert(x.take(n - 1) =~= y.take(n - 1));
        }
    } else if b.len() > 0 {
        assert(a.take(0) =~= b.take(0));
        if a.len() > 0 {
            assert forall|n: int| 0 <= n <= a.len() && n < b.len() && #[trigger] a.take(n) == b.take(n)
                implies n == 0 by {
                if n > 0 {
                    assert(a.take(n)[0] == b.take(n)[0]);
                }
            }
        }
    }
}

/// A list is in order if each text comes before all that stand behind it; none is there twice.
pub proof fn law_increasing_lists_have_no_duplicates(list: Seq<Seq<char>>)
    ensures
        increasing(list) <==> forall|i: int, j: int|
            0 <= i < j < list.len() ==> comes_before(#[trigger] list[i], #[trigger] list[j]),
        increasing(list) ==> list.no_duplicates(),
{
    if increasing(list) {
        assert forall|i: int, j: int| 0 <= i < list.len() && 0 <= j < list.len() && i != j implies list[i]
            != list[j] by {
            lemma_irreflexive(list[i]);
            if i < j {
                assert(comes_before(list[i], list[j]));
            } else {
                assert(comes_before(list[j], list[i]));
            }
        }
    }
}

} // verus!
