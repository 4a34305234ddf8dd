//! Stable ordering: an insertion sort over any type with a strict ranking,
//! and the lexicographic order of texts.
use vstd::prelude::*;

verus! {

broadcast use vstd::seq_lib::group_seq_properties;

/// A strict ranking: `precedes(a, b)` when `a` must come before `b`.
pub trait Ranked: Sized {
    spec fn precedes(a: Self, b: Self) -> bool;

    proof fn asymmetric(a: Self, b: Self)
        requires
            Self::precedes(a, b),
        ensures
            !Self::precedes(b, a),
    ;

    proof fn transitive(a: Self, b: Self, c: Self)
        requires
            Self::precedes(a, b),
            Self::precedes(b, c),
        ensures
            Self::precedes(a, c),
    ;

    fn before(&self, other: &Self) -> (r: bool)
        ensures
            r == Self::precedes(*self, *other),
    ;
}

/// Whether no item is ranked before one that comes earlier.
pub open spec fn in_order<T: Ranked>(s: Seq<T>) -> bool {
    forall|i: int, j: int| 0 <= i < j < s.len() ==> !T::precedes(#[trigger] s[j], #[trigger] s[i])
}

/// Where `x` goes among `s`: before the first item that it precedes, at the
/// end when there is none.
pub open spec fn slot<T: Ranked>(s: Seq<T>, x: T) -> int
    decreases s.len(),
{
    if s.len() == 0 {
        0
    } else if T::precedes(x, s[0]) {
        0
    } else {
        1 + slot(s.drop_first(), x)
    }
}

/// The items in order, each placed after every earlier item that it does not
/// precede: a stable sort.
pub open spec fn arranged<T: Ranked>(s: Seq<T>) -> Seq<T>
    decreases s.len(),
{
    if s.len() == 0 {
        Seq::empty()
    } else {
        let rest = arranged(s.drop_last());
        rest.insert(slot(rest, s.last()), s.last())
    }
}

/// The slot of `x` is the first index whose item `x` precedes.
pub proof fn lemma_slot<T: Ranked>(s: Seq<T>, x: T, j: int)
    requires
        0 <= j <= s.len(),
        forall|k: int| 0 <= k < j ==> !T::precedes(x, #[trigger] s[k]),
        j == s.len() || T::precedes(x, s[j]),
    ensures
        slot(s, x) == j,
    decreases s.len(),
{
    if s.len() > 0 && j > 0 {
        let t = s.drop_first();
        assert(!T::precedes(x, s[0]));
        assert forall|k: int| 0 <= k < j - 1 implies !T::precedes(x, #[trigger] t[k]) by {
            assert(t[k] == s[k + 1]);
        }
        if j < s.len() {
            assert(t[j - 1] == s[j]);
        }
        lemma_slot(t, x, j - 1);
    }
}

/// The slot of `x` lies within `s`, after every item that `x` does not
/// precede and before the first one that it does.
pub proof fn lemma_slot_bounds<T: Ranked>(s: Seq<T>, x: T)
    ensures
        0 <= slot(s, x) <= s.len(),
        forall|k: int| 0 <= k < slot(s, x) ==> !T::precedes(x, #[trigger] s[k]),
        slot(s, x) < s.len() ==> T::precedes(x, s[slot(s, x)]),
    decreases s.len(),
{
    if s.len() > 0 && !T::precedes(x, s[0]) {
        let t = s.drop_first();
        lemma_slot_bounds(t, x);
        assert forall|k: int| 0 <= k < slot(s, x) implies !T::precedes(x, #[trigger] s[k]) by {
            if k > 0 {
                assert(s[k] == t[k - 1]);
            }
        }
        if slot(s, x) < s.len() {
            assert(s[slot(s, x)] == t[slot(t, x)]);
        }
    }
}

/// Placing an item in its slot keeps an ordered sequence in order.
pub proof fn lemma_insert_in_order<T: Ranked>(s: Seq<T>, x: T)
    requires
        in_order(s),
    ensures
        in_order(s.insert(slot(s, x), x)),
{
    lemma_slot_bounds(s, x);
    let p = slot(s, x);
    let r = s.insert(p, x);
    assert forall|i: int, j: int| 0 <= i < j < r.len() implies !T::precedes(#[trigger] r[j], #[trigger] r[i]) by {
        if j < p {
            assert(r[i] == s[i] && r[j] == s[j]);
        } else if j == p {
            assert(r[i] == s[i]);
        } else if i == p {
            assert(r[j] == s[j - 1]);
            if T::precedes(s[j - 1], x) {
                if j - 1 == p {
                    T::asymmetric(s[p], x);
                } else {
                    T::transitive(s[j - 1], x, s[p]);
                    assert(!T::precedes(s[j - 1], s[p]));
                }
            }
        } else if i < p {
            assert(r[i] == s[i] && r[j] == s[j - 1]);
        } else {
            assert(r[i] == s[i - 1] && r[j] == s[j - 1]);
        }
    }
}

/// A stable sort leaves its items in order.
pub proof fn lemma_arranged_in_order<T: Ranked>(s: Seq<T>)
    ensures
        in_order(arranged(s)),
    decreases s.len(),
{
    if s.len() > 0 {
        lemma_arranged_in_order(s.drop_last());
        lemma_insert_in_order(arranged(s.drop_last()), s.last());
    }
}

/// A stable sort holds the same items, as many times each.
pub proof fn lemma_arranged_permutes<T: Ranked>(s: Seq<T>)
    ensures
        arranged(s).to_multiset() == s.to_multiset(),
    decreases s.len(),
{
    if s.len() > 0 {
        let rest = arranged(s.drop_last());
        lemma_arranged_permutes(s.drop_last());
        lemma_slot_bounds(rest, s.last());
        assert(s.drop_last().push(s.last()) =~= s);
    }
}

/// Places `x` in its slot among the items of `v`.
pub fn insert_ranked<T: Ranked>(v: &mut Vec<T>, x: T)
    ensures
        final(v)@ == old(v)@.insert(slot(old(v)@, x), x),
{
    let mut j: usize = 0;
    while j < v.len() && !x.before(&v[j])
        invariant
            j <= v@.len(),
            v@ == old(v)@,
            forall|k: int| 0 <= k < j ==> !T::precedes(x, #[trigger] v@[k]),
        decreases v@.len() - j,
    {
        j = j + 1;
    }
    proof {
        lemma_slot(v@, x, j as int);
    }
    v.insert(j, x);
}

/// The items sorted stably by their ranking.
pub fn arrange<T: Ranked>(items: Vec<T>) -> (sorted: Vec<T>)
    ensures
        sorted@ == arranged(items@),
{
    let ghost all = items@;
    let mut items = items;
    let mut reversed: Vec<T> = Vec::new();
    while items.len() > 0
        invariant
            items@ + reversed@.reverse() == all,
        decreases items@.len(),
    {
        let x = items.pop().unwrap();
        proof {
            assert(reversed@.push(x).reverse() =~= seq![x] + reversed@.reverse());
        }
        reversed.push(x);
    }
    assert(reversed@.reverse() =~= all);
    let mut sorted: Vec<T> = Vec::new();
    let ghost mut done: int = 0;
    while reversed.len() > 0
        invariant
            reversed@.reverse() == all.skip(done),
            0 <= done <= all.len(),
            sorted@ == arranged(all.take(done)),
        decreases reversed@.len(),
    {
        proof {
            assert(all.skip(done).len() == reversed@.len());
            assert(done < all.len());
            assert(reversed@.reverse()[0] == reversed@.last());
        }
        let x = reversed.pop().unwrap();
        proof {
            assert(all.skip(done)[0] == x);
            assert(all.take(done + 1).drop_last() =~= all.take(done));
            assert(all.take(done + 1).last() == x);
            assert(reversed@.reverse() =~= all.skip(done + 1));
            done = done + 1;
        }
        insert_ranked(&mut sorted, x);
    }
    assert(all.take(done) =~= all);
    sorted
}

/// Whether `a` comes before `b` in the lexicographic order of characters.
pub open spec fn text_less(a: Seq<char>, b: Seq<char>) -> bool
    decreases a.len(),
{
    if b.len() == 0 {
        false
    } else if a.len() == 0 {
        true
    } else if a[0] != b[0] {
        (a[0] as int) < (b[0] as int)
    } else {
        text_less(a.drop_first(), b.drop_first())
    }
}

/// No text comes before one that comes before it.
pub proof fn lemma_text_asymmetric(a: Seq<char>, b: Seq<char>)
    requires
        text_less(a, b),
    ensures
        !text_less(b, a),
    decreases a.len(),
{
    if a.len() > 0 && b.len() > 0 && a[0] == b[0] {
        lemma_text_asymmetric(a.drop_first(), b.drop_first());
    }
}

/// The lexicographic order is transitive.
pub proof fn lemma_text_transitive(a: Seq<char>, b: Seq<char>, c: Seq<char>)
    requires
        text_less(a, b),
        text_less(b, c),
    ensures
        text_less(a, c),
    decreases a.len(),
{
    if a.len() > 0 && b.len() > 0 && c.len() > 0 && a[0] == b[0] && b[0] == c[0] {
        lemma_text_transitive(a.drop_first(), b.drop_first(), c.drop_first());
    }
}

/// Of two different texts, one comes before the other.
pub proof fn lemma_text_total(a: Seq<char>, b: Seq<char>)
    requires
        a != b,
    ensures
        text_less(a, b) || text_less(b, a),
    decreases a.len(),
{
    if a.len() > 0 && b.len() > 0 && a[0] == b[0] {
        if a.drop_first() == b.drop_first() {
            assert(a =~= seq![a[0]] + a.drop_first());
            assert(b =~= seq![b[0]] + b.drop_first());
        } else {
            lemma_text_total(a.drop_first(), b.drop_first());
        }
    } else if a.len() == 0 && b.len() == 0 {
        assert(a =~= b);
    } else if a.len() > 0 && b.len() > 0 {
        assert(a[0] as int != b[0] as int);
    }
}

/// No text comes before itself.
pub proof fn lemma_text_irreflexive(a: Seq<char>)
    ensures
        !text_less(a, a),
    decreases a.len(),
{
    if a.len() > 0 {
        lemma_text_irreflexive(a.drop_first());
    }
}

/// The characters of a text, in order.
pub fn chars_of(s: &str) -> (v: Vec<char>)
    ensures
        v@ == s@,
{
    let mut v: Vec<char> = Vec::new();
    for c in it: s.chars()
        invariant
            it.seq() == s@,
            v@ == s@.take(it.index() as int),
    {
        proof {
            assert(s@.take(it.index() + 1) =~= v@.push(c));
        }
        v.push(c);
    }
    assert(v@ =~= s@);
    v
}

/// Whether `a` comes before `b` in the lexicographic order of characters.
pub fn text_before(a: &str, b: &str) -> (less: bool)
    ensures
        less == text_less(a@, b@),
{
    let x = chars_of(a);
    let y = chars_of(b);
    let mut i: usize = 0;
    while i < x.len() && i < y.len() && x[i] == y[i]
        invariant
            i <= x@.len(),
            i <= y@.len(),
            text_less(a@, b@) == text_less(x@.skip(i as int), y@.skip(i as int)),
        decreases x@.len() - i,
    {
        proof {
            let s = x@.skip(i as int);
            let t = y@.skip(i as int);
            assert(s.drop_first() =~= x@.skip(i + 1));
            assert(t.drop_first() =~= y@.skip(i + 1));
        }
        i = i + 1;
    }
    proof {
        assert(x@.skip(i as int).len() == x@.len() - i);
        assert(y@.skip(i as int).len() == y@.len() - i);
    }
    if i == y.len() {
        false
    } else if i == x.len() {
        true
    } else {
        proof {
            assert(x@.skip(i as int)[0] == x@[i as int]);
            assert(y@.skip(i as int)[0] == y@[i as int]);
        }
        x[i] < y[i]
    }
}

} // verus!
